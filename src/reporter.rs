//! The decisions of the reporting loop: count each line, report diagnostics,
//! and emit a snapshot every few seconds and once at end of input.
use vstd::prelude::*;
use crate::grammar::{outcome_view, parse_line, parse_spec, DiskIoRec, LineKind, ParseError};
use crate::report::{is_report_of, string_from_chars};
use crate::store::{sum_counts, table_add, EntryView, Summary};

verus! {

/// Seconds between two periodic reports, in nanoseconds.
pub const PRINT_EVERY_NANOS: u128 = 3_000_000_000;

/// The counters of a run, and when the last report went out (nanoseconds
/// since the Unix epoch).
pub struct Reporter {
    pub summary: Summary,
    pub last_print: u128,
    /// The lines read so far, in order.
    pub seen: Ghost<Seq<Seq<char>>>,
}

/// How many of `ls` yield no record.
pub open spec fn failures(ls: Seq<Seq<char>>) -> nat
    decreases ls.len(),
{
    if ls.len() == 0 {
        0
    } else {
        failures(ls.drop_last()) + if parse_spec(ls.last()) is Record { 0nat } else { 1nat }
    }
}

/// The call table after recording the records of `ls` in order.
pub open spec fn calls_after(ls: Seq<Seq<char>>) -> Seq<EntryView>
    decreases ls.len(),
{
    if ls.len() == 0 {
        Seq::empty()
    } else {
        match parse_spec(ls.last()) {
            LineKind::Record(r) => table_add(calls_after(ls.drop_last()), r.call, r.interval as int),
            _ => calls_after(ls.drop_last()),
        }
    }
}

/// The process table after recording the records of `ls` in order.
pub open spec fn processes_after(ls: Seq<Seq<char>>) -> Seq<EntryView>
    decreases ls.len(),
{
    if ls.len() == 0 {
        Seq::empty()
    } else {
        match parse_spec(ls.last()) {
            LineKind::Record(r) => table_add(
                processes_after(ls.drop_last()),
                r.process,
                r.interval as int,
            ),
            _ => processes_after(ls.drop_last()),
        }
    }
}

/// What the loop is to print after a line: a diagnostic, a snapshot, both or
/// neither.
pub struct Action {
    pub diagnostic: Option<String>,
    pub report: Option<String>,
}

/// The diagnostic printed for a failure, if it is one that gets printed.
pub open spec fn diagnostic_of(k: LineKind) -> Option<Seq<char>> {
    match k {
        LineKind::NumericParse(t) => Some("numeric field out of range: "@ + t),
        LineKind::UnexpectedFormat(t) => Some("unexpected parse, no bytes or errno: "@ + t),
        _ => None,
    }
}

pub open spec fn opt_view(o: Option<String>) -> Option<Seq<char>> {
    match o {
        Some(s) => Some(s@),
        None => None,
    }
}

/// Whether a periodic report is due at `now` after one at `last`.
pub open spec fn report_due(last: int, now: int) -> bool {
    last <= now && now - last >= PRINT_EVERY_NANOS
}

/// Where the last-report time stands after a line read at `now`: reset on a
/// report and when the clock went back, else kept.
pub open spec fn next_last_print(last: int, now: int) -> int {
    if now < last || report_due(last, now) {
        now
    } else {
        last
    }
}

fn concat(prefix: &str, t: &String) -> (r: String)
    ensures
        r@ == prefix@ + t@,
{
    let mut out: Vec<char> = Vec::new();
    let n = prefix.unicode_len();
    let mut i: usize = 0;
    while i < n
        invariant
            n == prefix@.len(),
            i <= n,
            out@ == prefix@.take(i as int),
        decreases n - i,
    {
        out.push(prefix.get_char(i));
        assert(prefix@.take(i + 1) =~= prefix@.take(i as int).push(prefix@[i as int]));
        i = i + 1;
    }
    let s = t.as_str();
    let m = s.unicode_len();
    let mut j: usize = 0;
    while j < m
        invariant
            n == prefix@.len(),
            m == t@.len(),
            s@ == t@,
            j <= m,
            out@ == prefix@ + t@.take(j as int),
        decreases m - j,
    {
        out.push(s.get_char(j));
        assert(t@.take(j + 1) =~= t@.take(j as int).push(t@[j as int]));
        j = j + 1;
    }
    assert(prefix@.take(n as int) =~= prefix@);
    assert(t@.take(m as int) =~= t@);
    string_from_chars(&out)
}

/// The diagnostic for a parse outcome.
pub fn diagnostic(outcome: &Result<DiskIoRec, ParseError>) -> (r: Option<String>)
    ensures
        opt_view(r) == diagnostic_of(outcome_view(*outcome)),
{
    match outcome {
        Ok(_) => None,
        Err(ParseError::NumericParse(t)) => Some(concat("numeric field out of range: ", t)),
        Err(ParseError::ExpectedNonRecord) => None,
        Err(ParseError::UnexpectedFormat(t)) => Some(concat("unexpected parse, no bytes or errno: ", t)),
    }
}

impl Reporter {
    /// The counters and tables are those of the lines read so far.
    pub open spec fn wf(&self) -> bool {
        &&& self.summary.wf()
        &&& self.summary.balanced()
        &&& self.summary.lines == self.seen@.len()
        &&& self.summary.parse_fails == failures(self.seen@)
        &&& self.summary.calls@ == calls_after(self.seen@)
        &&& self.summary.processes@ == processes_after(self.seen@)
    }

    /// A run that has read nothing; the last report is dated at the epoch.
    pub fn new() -> (r: Reporter)
        ensures
            r.wf(),
            r.summary.lines == 0,
            r.summary.parse_fails == 0,
            r.summary.calls@.len() == 0,
            r.summary.processes@.len() == 0,
            r.last_print == 0,
            r.seen@ == Seq::<Seq<char>>::empty(),
    {
        Reporter { summary: Summary::new(), last_print: 0, seen: Ghost(Seq::empty()) }
    }

    /// Handles one parse outcome read at time `now`.
    fn handle(&mut self, outcome: Result<DiskIoRec, ParseError>, now: u128) -> (a: Action)
        requires
            old(self).summary.wf(),
            old(self).summary.balanced(),
            old(self).summary.lines < u64::MAX,
        ensures
            final(self).summary.wf(),
            final(self).summary.balanced(),
            final(self).seen == old(self).seen,
            final(self).summary.lines == old(self).summary.lines + 1,
            match outcome {
                Ok(rec) => {
                    &&& final(self).summary.calls@ == table_add(
                        old(self).summary.calls@,
                        rec.call@,
                        rec.interval as int,
                    )
                    &&& final(self).summary.processes@ == table_add(
                        old(self).summary.processes@,
                        rec.process@,
                        rec.interval as int,
                    )
                    &&& final(self).summary.parse_fails == old(self).summary.parse_fails
                },
                Err(_) => {
                    &&& final(self).summary.calls@ == old(self).summary.calls@
                    &&& final(self).summary.processes@ == old(self).summary.processes@
                    &&& final(self).summary.parse_fails == old(self).summary.parse_fails + 1
                },
            },
            opt_view(a.diagnostic) == diagnostic_of(outcome_view(outcome)),
            a.report is Some <==> report_due(old(self).last_print as int, now as int),
            a.report matches Some(t) ==> is_report_of(t@, final(self).summary),
            final(self).last_print == next_last_print(old(self).last_print as int, now as int),
    {
        self.summary.tally(&outcome);
        let diagnostic = diagnostic(&outcome);
        let mut report: Option<String> = None;
        if now < self.last_print {
            self.last_print = now;
        } else if now - self.last_print >= PRINT_EVERY_NANOS {
            report = Some(self.summary.render());
            self.last_print = now;
        }
        Action { diagnostic, report }
    }

    /// Parses one line read at time `now` and handles the outcome.
    pub fn on_line(&mut self, line: &str, now: u128) -> (a: Action)
        requires
            old(self).wf(),
            old(self).summary.lines < u64::MAX,
        ensures
            final(self).wf(),
            final(self).summary.lines == old(self).summary.lines + 1,
            final(self).seen@ == old(self).seen@.push(line@),
            parse_spec(line@) is Record <==> final(self).summary.parse_fails
                == old(self).summary.parse_fails,
            !(parse_spec(line@) is Record) <==> final(self).summary.parse_fails
                == old(self).summary.parse_fails + 1,
            parse_spec(line@) matches LineKind::Record(rec) ==> {
                &&& final(self).summary.calls@ == table_add(
                    old(self).summary.calls@,
                    rec.call,
                    rec.interval as int,
                )
                &&& final(self).summary.processes@ == table_add(
                    old(self).summary.processes@,
                    rec.process,
                    rec.interval as int,
                )
            },
            !(parse_spec(line@) is Record) ==> {
                &&& final(self).summary.calls@ == old(self).summary.calls@
                &&& final(self).summary.processes@ == old(self).summary.processes@
            },
            opt_view(a.diagnostic) == diagnostic_of(parse_spec(line@)),
            a.report is Some <==> report_due(old(self).last_print as int, now as int),
            a.report matches Some(t) ==> is_report_of(t@, final(self).summary),
            final(self).last_print == next_last_print(old(self).last_print as int, now as int),
    {
        let outcome = parse_line(line);
        let a = self.handle(outcome, now);
        let ghost before = self.seen@;
        self.seen = Ghost(before.push(line@));
        proof {
            assert(self.seen@.drop_last() =~= before);
        }
        a
    }

    /// The final report, at end of input; the run ends with it.
    pub fn finish(self) -> (r: String)
        requires
            self.wf(),
        ensures
            is_report_of(r@, self.summary),
    {
        self.summary.render()
    }
}

/// The reporter has counted every line it has read, once: `lines` is their
/// number, the failures and the records add up to it, and both tables hold
/// every record.
pub proof fn lemma_lines_counted(r: &Reporter)
    requires
        r.wf(),
    ensures
        r.summary.lines == r.seen@.len(),
        r.summary.parse_fails + sum_counts(r.summary.calls@) == r.summary.lines,
        sum_counts(r.summary.calls@) == sum_counts(r.summary.processes@),
{
    crate::store::lemma_tallies_balance(&r.summary);
}

} // verus!
