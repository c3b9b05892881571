//! The line grammar: one trace line to a record or a classified failure.
use vstd::prelude::*;
use crate::numeric::{dec_u64, hex_u64, interval_nanos, parse_dec_u64, parse_hex_u64, parse_interval};

verus! {

/// A completed I/O call: timestamp `HH:MM:SS.<digits>`, a call name, a byte
/// count written in hexadecimal, filler, the elapsed seconds followed by ` W `,
/// and `<process>.<pid>` at the end of the line.
pub const RECORD_PATTERN: &'static str =
    "(\\d{2}:\\d{2}:\\d{2}\\.\\d+) +([^ ]+) (?:.* )?B=0x([[:xdigit:]]+) (?:.* )?([.\\d]+) W (.+)\\.(\\d+)$";

/// A benign errno annotation: a bracketed run of digits and spaces.
pub const ERRNO_PATTERN: &'static str = " \\[([ \\d]+)\\]";

/// What the regular expression `pattern` captures at its leftmost match in
/// `haystack`, one entry per group, group 0 first; `None` where nothing
/// matches or the pattern does not compile.
pub uninterp spec fn pattern_captures(pattern: Seq<char>, haystack: Seq<char>) -> Option<Seq<Option<Seq<char>>>>;

/// Whether the regular expression `pattern` compiles and matches somewhere in
/// `haystack`.
pub uninterp spec fn pattern_matches(pattern: Seq<char>, haystack: Seq<char>) -> bool;

pub open spec fn group_view(g: Option<String>) -> Option<Seq<char>> {
    match g {
        Some(s) => Some(s@),
        None => None,
    }
}

pub open spec fn groups_view(gs: Seq<Option<String>>) -> Seq<Option<Seq<char>>> {
    gs.map_values(|g: Option<String>| group_view(g))
}

pub open spec fn captures_view(c: Option<Vec<Option<String>>>) -> Option<Seq<Option<Seq<char>>>> {
    match c {
        Some(v) => Some(groups_view(v@)),
        None => None,
    }
}

/// Relies on `regex::Regex::new` and `regex::Regex::captures`: the groups of
/// the leftmost match, as owned text.
#[verifier::external_body]
fn regex_captures(pattern: &str, haystack: &str) -> (r: Option<Vec<Option<String>>>)
    ensures
        captures_view(r) == pattern_captures(pattern@, haystack@),
{
    match regex::Regex::new(pattern) {
        Ok(re) => re.captures(haystack).map(
            |c| c.iter().map(|m| m.map(|m| m.as_str().to_string())).collect(),
        ),
        Err(_) => None,
    }
}

/// Relies on `regex::Regex::new` and `regex::Regex::is_match`.
#[verifier::external_body]
fn regex_is_match(pattern: &str, haystack: &str) -> (r: bool)
    ensures
        r == pattern_matches(pattern@, haystack@),
{
    match regex::Regex::new(pattern) {
        Ok(re) => re.is_match(haystack),
        Err(_) => false,
    }
}

/// One successfully parsed trace line.
pub struct DiskIoRec {
    /// Raw `HH:MM:SS.fraction` text, not interpreted further.
    pub timestamp: String,
    pub call: String,
    pub bytes: u64,
    /// Elapsed time, in whole nanoseconds.
    pub interval: u64,
    pub process: String,
    pub pid: u64,
}

/// Why a line yielded no record.
pub enum ParseError {
    /// The grammar matched but a numeric field did not convert; holds the line.
    NumericParse(String),
    /// An errno annotation line: counted, never reported.
    ExpectedNonRecord,
    /// Neither grammar matched; holds the line.
    UnexpectedFormat(String),
}

/// The mathematical value of a parsed record.
pub ghost struct RecView {
    pub timestamp: Seq<char>,
    pub call: Seq<char>,
    pub bytes: u64,
    pub interval: u64,
    pub process: Seq<char>,
    pub pid: u64,
}

/// The outcome of parsing one line, with the text that a failure retains.
pub ghost enum LineKind {
    Record(RecView),
    NumericParse(Seq<char>),
    ExpectedNonRecord,
    UnexpectedFormat(Seq<char>),
}

impl DiskIoRec {
    pub open spec fn view(&self) -> RecView {
        RecView {
            timestamp: self.timestamp@,
            call: self.call@,
            bytes: self.bytes,
            interval: self.interval,
            process: self.process@,
            pid: self.pid,
        }
    }
}

pub open spec fn outcome_view(r: Result<DiskIoRec, ParseError>) -> LineKind {
    match r {
        Ok(rec) => LineKind::Record(rec.view()),
        Err(ParseError::NumericParse(t)) => LineKind::NumericParse(t@),
        Err(ParseError::ExpectedNonRecord) => LineKind::ExpectedNonRecord,
        Err(ParseError::UnexpectedFormat(t)) => LineKind::UnexpectedFormat(t@),
    }
}

/// Whether all six fields of a record match were captured.
pub open spec fn has_fields(c: Seq<Option<Seq<char>>>) -> bool {
    c.len() >= 7 && forall|i: int| 1 <= i <= 6 ==> #[trigger] c[i] is Some
}

/// What a line is, given what the record pattern captured in it and whether
/// the errno pattern matched it.
pub open spec fn line_kind(line: Seq<char>, caps: Option<Seq<Option<Seq<char>>>>, errno: bool) -> LineKind {
    match caps {
        None => if errno {
            LineKind::ExpectedNonRecord
        } else {
            LineKind::UnexpectedFormat(line)
        },
        Some(c) => if !has_fields(c) {
            LineKind::UnexpectedFormat(line)
        } else {
            let bytes = hex_u64(c[3]->0);
            let interval = interval_nanos(c[4]->0);
            let pid = dec_u64(c[6]->0);
            if bytes is Some && interval is Some && pid is Some {
                LineKind::Record(
                    RecView {
                        timestamp: c[1]->0,
                        call: c[2]->0,
                        bytes: bytes->0,
                        interval: interval->0,
                        process: c[5]->0,
                        pid: pid->0,
                    },
                )
            } else {
                LineKind::NumericParse(line)
            }
        },
    }
}

/// What a line is under the record and errno patterns.
pub open spec fn parse_spec(line: Seq<char>) -> LineKind {
    line_kind(
        line,
        pattern_captures(RECORD_PATTERN@, line),
        pattern_matches(ERRNO_PATTERN@, line),
    )
}

fn copy_str(s: &str) -> (r: String)
    ensures
        r@ == s@,
{
    s.to_owned()
}

fn field(caps: &Vec<Option<String>>, i: usize) -> (r: &String)
    requires
        i < caps@.len(),
        caps@[i as int] is Some,
    ensures
        r@ == groups_view(caps@)[i as int]->0,
{
    match &caps[i] {
        Some(s) => s,
        None => unreached(),
    }
}

/// Turns what the two patterns gave for a line into a record or a failure.
pub fn classify_line(line: &str, caps: Option<Vec<Option<String>>>, errno: bool) -> (r: Result<DiskIoRec, ParseError>)
    ensures
        outcome_view(r) == line_kind(line@, captures_view(caps), errno),
{
    match caps {
        None => if errno {
            Err(ParseError::ExpectedNonRecord)
        } else {
            Err(ParseError::UnexpectedFormat(copy_str(line)))
        },
        Some(c) => {
            let ghost cv = groups_view(c@);
            assert(captures_view(caps) == Some(cv));
            assert(cv.len() == c@.len());
            if c.len() < 7 {
                return Err(ParseError::UnexpectedFormat(copy_str(line)));
            }
            let mut i: usize = 1;
            while i <= 6
                invariant
                    1 <= i <= 7,
                    c@.len() >= 7,
                    cv == groups_view(c@),
                    captures_view(caps) == Some(cv),
                    forall|j: int| 1 <= j < i ==> #[trigger] cv[j] is Some,
                decreases 7 - i,
            {
                if c[i].is_none() {
                    assert(cv[i as int] == group_view(c@[i as int]));
                    assert(!has_fields(cv));
                    return Err(ParseError::UnexpectedFormat(copy_str(line)));
                }
                assert(cv[i as int] == group_view(c@[i as int]));
                i = i + 1;
            }
            assert(has_fields(cv));
            let bytes = parse_hex_u64(field(&c, 3).as_str());
            let interval = parse_interval(field(&c, 4).as_str());
            let pid = parse_dec_u64(field(&c, 6).as_str());
            match (bytes, interval, pid) {
                (Some(bytes), Some(interval), Some(pid)) => Ok(
                    DiskIoRec {
                        timestamp: field(&c, 1).clone(),
                        call: field(&c, 2).clone(),
                        bytes,
                        interval,
                        process: field(&c, 5).clone(),
                        pid,
                    },
                ),
                _ => Err(ParseError::NumericParse(copy_str(line))),
            }
        },
    }
}

/// Parses one trace line (without its terminator).
pub fn parse_line(line: &str) -> (r: Result<DiskIoRec, ParseError>)
    ensures
        outcome_view(r) == parse_spec(line@),
{
    let caps = regex_captures(RECORD_PATTERN, line);
    let errno = regex_is_match(ERRNO_PATTERN, line);
    classify_line(line, caps, errno)
}

} // verus!
