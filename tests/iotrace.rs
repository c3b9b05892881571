use iotrace::grammar::{classify_line, parse_line, ParseError};
use iotrace::numeric::{parse_dec_u64, parse_hex_u64, parse_interval};
use iotrace::ranking::{name_less, top_values};
use iotrace::report::{decimal_text, fmt_pairs, seconds_text};
use iotrace::reporter::{diagnostic, Reporter};
use iotrace::store::{Summary, Table};

const WRITE_LINE: &str = "12:00:01.500000 write B=0x400 some/garbage 0.25 W myproc.1234";

fn write_line(interval: &str) -> String {
    format!("12:00:01.500000 write B=0x10 some/path {} W myproc.1234", interval)
}

fn empty_report() -> String {
    "\n=> lines (fails): 0 (0)\n=> top calls (time):\n=> top calls (entries):\n\
     => top processes (time):\n=> top processes (entries):\n"
        .to_string()
}

#[test]
fn parses_record_line() {
    match parse_line(WRITE_LINE) {
        Ok(rec) => {
            assert_eq!(rec.timestamp, "12:00:01.500000");
            assert_eq!(rec.call, "write");
            assert_eq!(rec.bytes, 1024);
            assert_eq!(rec.interval, 250_000_000);
            assert_eq!(rec.process, "myproc");
            assert_eq!(rec.pid, 1234);
        }
        Err(_) => panic!("expected a record"),
    }
}

#[test]
fn process_name_keeps_inner_dots() {
    let line = "12:00:01.5 read B=0x1f x 1.5 W com.apple.thing.77";
    match parse_line(line) {
        Ok(rec) => {
            assert_eq!(rec.process, "com.apple.thing");
            assert_eq!(rec.pid, 77);
            assert_eq!(rec.bytes, 31);
            assert_eq!(rec.interval, 1_500_000_000);
        }
        Err(_) => panic!("expected a record"),
    }
}

#[test]
fn errno_line_is_expected_non_record() {
    let r = parse_line("12:00:02.000000 read [ 5]");
    assert!(matches!(r, Err(ParseError::ExpectedNonRecord)));
    assert!(diagnostic(&r).is_none());
    let mut rep = Reporter::new();
    let a = rep.on_line("12:00:02.000000 read [ 5]", 1);
    assert_eq!(rep.summary.lines, 1);
    assert_eq!(rep.summary.parse_fails, 1);
    assert!(a.diagnostic.is_none());
}

#[test]
fn garbage_line_is_unexpected_format() {
    let line = "garbage line with no structure";
    let r = parse_line(line);
    match &r {
        Err(ParseError::UnexpectedFormat(t)) => assert_eq!(t, line),
        _ => panic!("expected an unexpected-format failure"),
    }
    let mut rep = Reporter::new();
    let a = rep.on_line(line, 1);
    assert_eq!(rep.summary.parse_fails, 1);
    let d = a.diagnostic.expect("a diagnostic");
    assert!(d.contains(line));
    assert_eq!(d, format!("unexpected parse, no bytes or errno: {}", line));
}

#[test]
fn trailing_space_after_pid_fails_record_grammar() {
    let line = format!("{} ", WRITE_LINE);
    assert!(matches!(parse_line(&line), Err(ParseError::UnexpectedFormat(_))));
}

#[test]
fn pid_overflow_is_numeric_parse() {
    let line = "12:00:01.5 write B=0x400 x 0.25 W p.99999999999999999999";
    let r = parse_line(line);
    assert!(matches!(&r, Err(ParseError::NumericParse(t)) if t == line));
    let d = diagnostic(&r).expect("a diagnostic");
    assert_eq!(d, format!("numeric field out of range: {}", line));
}

#[test]
fn malformed_interval_is_numeric_parse() {
    let line = "12:00:01.5 write B=0x400 x 1.2.3 W p.1";
    assert!(matches!(parse_line(line), Err(ParseError::NumericParse(_))));
}

#[test]
fn classify_line_without_captures() {
    assert!(matches!(classify_line("x", None, true), Err(ParseError::ExpectedNonRecord)));
    assert!(matches!(classify_line("x", None, false), Err(ParseError::UnexpectedFormat(_))));
    let short = Some(vec![Some("a".to_string())]);
    assert!(matches!(classify_line("x", short, false), Err(ParseError::UnexpectedFormat(_))));
}

#[test]
fn classify_line_with_captures() {
    let caps = vec![
        Some("whole".to_string()),
        Some("01:02:03.4".to_string()),
        Some("open".to_string()),
        Some("ff".to_string()),
        Some("2.5".to_string()),
        Some("proc".to_string()),
        Some("9".to_string()),
    ];
    match classify_line("whole", Some(caps), false) {
        Ok(rec) => {
            assert_eq!(rec.call, "open");
            assert_eq!(rec.bytes, 255);
            assert_eq!(rec.interval, 2_500_000_000);
            assert_eq!(rec.process, "proc");
            assert_eq!(rec.pid, 9);
        }
        Err(_) => panic!("expected a record"),
    }
}

#[test]
fn hex_parsing() {
    assert_eq!(parse_hex_u64("400"), Some(1024));
    assert_eq!(parse_hex_u64("aBc"), Some(0xabc));
    assert_eq!(parse_hex_u64("FFFFFFFFFFFFFFFF"), Some(u64::MAX));
    assert_eq!(parse_hex_u64("10000000000000000"), None);
    assert_eq!(parse_hex_u64(""), None);
    assert_eq!(parse_hex_u64("12g"), None);
}

#[test]
fn decimal_parsing() {
    assert_eq!(parse_dec_u64("1234"), Some(1234));
    assert_eq!(parse_dec_u64("18446744073709551615"), Some(u64::MAX));
    assert_eq!(parse_dec_u64("18446744073709551616"), None);
    assert_eq!(parse_dec_u64(""), None);
    assert_eq!(parse_dec_u64("1a"), None);
}

#[test]
fn interval_parsing() {
    assert_eq!(parse_interval("0.25"), Some(250_000_000));
    assert_eq!(parse_interval(".5"), Some(500_000_000));
    assert_eq!(parse_interval("3."), Some(3_000_000_000));
    assert_eq!(parse_interval("7"), Some(7_000_000_000));
    assert_eq!(parse_interval("0.0000000019"), Some(1));
    assert_eq!(parse_interval("."), None);
    assert_eq!(parse_interval("1.2.3"), None);
    assert_eq!(parse_interval(""), None);
    assert_eq!(parse_interval("99999999999"), None);
}

#[test]
fn record_accumulates_sum_and_count() {
    let mut s = Summary::new();
    let mut rep = Reporter::new();
    rep.on_line(&write_line("0.25"), 1);
    rep.on_line(&write_line("0.75"), 2);
    let key = "write".to_string();
    assert_eq!(rep.summary.calls.get(&key), Some((1_000_000_000, 2)));
    assert_eq!(rep.summary.processes.get(&"myproc".to_string()), Some((1_000_000_000, 2)));
    let top = top_values(&rep.summary.calls.by_sum(), 1);
    assert_eq!(top, vec![("write".to_string(), 1_000_000_000u128)]);
    assert_eq!(seconds_text(top[0].1), "1.0");
    match parse_line(&write_line("0.5")) {
        Ok(rec) => s.add(&rec),
        Err(_) => panic!("expected a record"),
    }
    assert_eq!(s.calls.get(&key), Some((500_000_000, 1)));
    assert_eq!(s.lines, 0);
}

#[test]
fn table_record_and_lookup() {
    let mut t = Table::new();
    t.record(&"a".to_string(), 5);
    t.record(&"b".to_string(), 7);
    t.record(&"a".to_string(), 1);
    assert_eq!(t.len(), 2);
    assert_eq!(t.get(&"a".to_string()), Some((6, 2)));
    assert_eq!(t.get(&"b".to_string()), Some((7, 1)));
    assert_eq!(t.get(&"c".to_string()), None);
    assert_eq!(t.entry(0).name, "a");
    assert_eq!(t.by_count(), vec![("a".to_string(), 2u128), ("b".to_string(), 1u128)]);
}

#[test]
fn counters_balance_over_a_stream() {
    let mut rep = Reporter::new();
    let lines = [
        write_line("0.25"),
        "12:00:02.000000 read [ 5]".to_string(),
        "junk".to_string(),
        WRITE_LINE.to_string(),
        "12:00:01.5 read B=0x1 x 0.5 W other.5".to_string(),
    ];
    for l in lines.iter() {
        rep.on_line(l, 1);
    }
    let s = &rep.summary;
    assert_eq!(s.lines, 5);
    assert_eq!(s.parse_fails, 2);
    let calls: u128 = s.calls.by_count().iter().map(|p| p.1).sum();
    let procs: u128 = s.processes.by_count().iter().map(|p| p.1).sum();
    assert_eq!(calls, 3);
    assert_eq!(procs, 3);
    assert_eq!(s.lines as u128, s.parse_fails as u128 + calls);
}

#[test]
fn top_values_orders_and_breaks_ties_by_name() {
    let pairs = vec![
        ("b".to_string(), 5u128),
        ("a".to_string(), 5u128),
        ("c".to_string(), 9u128),
        ("d".to_string(), 1u128),
    ];
    let top = top_values(&pairs, 3);
    assert_eq!(
        top,
        vec![("c".to_string(), 9u128), ("a".to_string(), 5u128), ("b".to_string(), 5u128)]
    );
    assert_eq!(top_values(&pairs, 10).len(), 4);
    assert_eq!(top_values(&pairs, 0).len(), 0);
    assert_eq!(top_values(&Vec::new(), 3).len(), 0);
}

#[test]
fn name_order_is_lexicographic() {
    assert!(name_less(&"ab".to_string(), &"b".to_string()));
    assert!(name_less(&"a".to_string(), &"ab".to_string()));
    assert!(!name_less(&"ab".to_string(), &"ab".to_string()));
    assert!(!name_less(&"b".to_string(), &"a".to_string()));
}

#[test]
fn final_report_of_empty_stream() {
    let rep = Reporter::new();
    assert_eq!(rep.finish(), empty_report());
}

#[test]
fn report_text_lists_rankings() {
    let mut rep = Reporter::new();
    rep.on_line(&write_line("0.25"), 1);
    rep.on_line(&write_line("0.75"), 2);
    let expected = format!(
        "\n=> lines (fails): 2 (0)\n=> top calls (time):\n  {:>16}: 1.0\n\
         => top calls (entries):\n  {:>16}: 2\n=> top processes (time):\n  {:>16}: 1.0\n\
         => top processes (entries):\n  {:>16}: 2\n",
        "write", "write", "myproc", "myproc"
    );
    assert_eq!(rep.finish(), expected);
}

#[test]
fn periodic_report_and_clock_resync() {
    let mut rep = Reporter::new();
    let a = rep.on_line("junk", 5_000_000_000);
    assert!(a.report.is_some());
    assert_eq!(rep.last_print, 5_000_000_000);
    let a = rep.on_line("junk", 6_000_000_000);
    assert!(a.report.is_none());
    assert_eq!(rep.last_print, 5_000_000_000);
    let a = rep.on_line("junk", 4_000_000_000);
    assert!(a.report.is_none());
    assert_eq!(rep.last_print, 4_000_000_000);
    let a = rep.on_line("junk", 7_000_000_000);
    let r = a.report.expect("a report");
    assert!(r.starts_with("\n=> lines (fails): 4 (4)\n"));
    assert_eq!(rep.last_print, 7_000_000_000);
}

#[test]
fn number_rendering() {
    assert_eq!(decimal_text(0), "0");
    assert_eq!(decimal_text(1234567), "1234567");
    assert_eq!(seconds_text(0), "0.0");
    assert_eq!(seconds_text(250_000_000), "0.3");
    assert_eq!(seconds_text(249_999_999), "0.2");
    assert_eq!(seconds_text(12_340_000_000), "12.3");
}

#[test]
fn pair_lines_are_right_aligned() {
    let pairs = vec![
        ("read".to_string(), "1.5".to_string()),
        ("a_very_long_call_name".to_string(), "2".to_string()),
    ];
    assert_eq!(
        fmt_pairs(&pairs),
        "              read: 1.5\n  a_very_long_call_name: 2\n"
    );
    assert_eq!(fmt_pairs(&Vec::new()), "");
}
