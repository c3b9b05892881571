//! Running tallies by call name and by process name.
use vstd::prelude::*;
use crate::grammar::{DiskIoRec, ParseError};
use crate::ranking::{names_distinct, pairs_view, Ranked};

verus! {

/// The largest interval a record can carry, in nanoseconds.
pub open spec fn max_interval() -> int {
    u64::MAX as int
}

/// One key's accumulated interval (in nanoseconds) and record count.
pub struct Tally {
    pub name: String,
    pub sum: u128,
    pub count: u64,
}

/// A mapping from names to tallies, one entry per distinct name.
pub struct Table {
    entries: Vec<Tally>,
}

/// The view of a table entry: name, sum, count.
pub type EntryView = (Seq<char>, int, int);

pub open spec fn tally_view(t: Tally) -> EntryView {
    (t.name@, t.sum as int, t.count as int)
}

/// Sum of the counts of all entries.
pub open spec fn sum_counts(s: Seq<EntryView>) -> int
    decreases s.len(),
{
    if s.len() == 0 {
        0
    } else {
        sum_counts(s.drop_last()) + s.last().2
    }
}

pub open spec fn keys_distinct(s: Seq<EntryView>) -> bool {
    forall|i: int, j: int| 0 <= i < j < s.len() ==> (#[trigger] s[i]).0 != (#[trigger] s[j]).0
}

pub open spec fn has_key(s: Seq<EntryView>, k: Seq<char>) -> bool {
    exists|i: int| 0 <= i < s.len() && (#[trigger] s[i]).0 == k
}

pub open spec fn key_index(s: Seq<EntryView>, k: Seq<char>) -> int {
    choose|i: int| 0 <= i < s.len() && (#[trigger] s[i]).0 == k
}

/// The entries after one record with name `k` and interval `iv`: the entry
/// of `k` (created at `(0, 0)` where absent) gains `iv` in its sum and one in
/// its count; no other entry changes.
pub open spec fn table_add(s: Seq<EntryView>, k: Seq<char>, iv: int) -> Seq<EntryView> {
    if has_key(s, k) {
        let i = key_index(s, k);
        s.update(i, (k, s[i].1 + iv, s[i].2 + 1))
    } else {
        s.push((k, iv, 1))
    }
}

/// The names with their sums.
pub open spec fn sums_of(s: Seq<EntryView>) -> Seq<Ranked> {
    s.map_values(|e: EntryView| (e.0, e.1))
}

/// The names with their counts.
pub open spec fn counts_of(s: Seq<EntryView>) -> Seq<Ranked> {
    s.map_values(|e: EntryView| (e.0, e.2))
}

/// The sum and count recorded under `k`, if any.
pub open spec fn table_get(s: Seq<EntryView>, k: Seq<char>) -> Option<(int, int)> {
    if has_key(s, k) {
        let i = key_index(s, k);
        Some((s[i].1, s[i].2))
    } else {
        None
    }
}

/// Recording interval `iv` under `k` adds `iv` to the sum of `k` and one to
/// its count (starting from a zero sum and count where `k` was absent), and
/// leaves the sum and count of every other name as they were.
pub proof fn lemma_record_effect(s: Seq<EntryView>, k: Seq<char>, iv: int, other: Seq<char>)
    requires
        keys_distinct(s),
        other != k,
    ensures
        table_get(table_add(s, k, iv), k) == match table_get(s, k) {
            Some((sum, count)) => Some((sum + iv, count + 1)),
            None => Some((iv, 1int)),
        },
        table_get(table_add(s, k, iv), other) == table_get(s, other),
{
    let t = table_add(s, k, iv);
    if has_key(s, k) {
        let i = key_index(s, k);
        assert(t[i].0 == k);
        assert(has_key(t, k));
        let j = key_index(t, k);
        if j != i {
            assert(s[j].0 == s[i].0);
        }
        if has_key(s, other) {
            let a = key_index(s, other);
            assert(t[a].0 == other);
            assert(has_key(t, other));
            let b = key_index(t, other);
            assert(t[b] == s[b]);
            if a != b {
                assert(s[a].0 == s[b].0);
            }
        } else if has_key(t, other) {
            let b = key_index(t, other);
            assert(t[b] == s[b]);
        }
    } else {
        let n = s.len() as int;
        assert(t[n].0 == k);
        assert(has_key(t, k));
        let j = key_index(t, k);
        if j != n {
            assert(t[j] == s[j]);
        }
        if has_key(s, other) {
            let a = key_index(s, other);
            assert(t[a] == s[a]);
            assert(has_key(t, other));
            let b = key_index(t, other);
            if b != n {
                assert(t[b] == s[b]);
                if a != b {
                    assert(s[a].0 == s[b].0);
                }
            }
        } else if has_key(t, other) {
            let b = key_index(t, other);
            if b != n {
                assert(t[b] == s[b]);
            }
        }
    }
}

proof fn lemma_sum_counts_update(s: Seq<EntryView>, i: int, e: EntryView)
    requires
        0 <= i < s.len(),
    ensures
        sum_counts(s.update(i, e)) == sum_counts(s) - s[i].2 + e.2,
    decreases s.len(),
{
    if i == s.len() - 1 {
        assert(s.update(i, e).drop_last() =~= s.drop_last());
    } else {
        assert(s.update(i, e).drop_last() =~= s.drop_last().update(i, e));
        lemma_sum_counts_update(s.drop_last(), i, e);
    }
}

proof fn lemma_sum_counts_push(s: Seq<EntryView>, e: EntryView)
    ensures
        sum_counts(s.push(e)) == sum_counts(s) + e.2,
{
    assert(s.push(e).drop_last() =~= s);
}

proof fn lemma_count_le_sum(s: Seq<EntryView>, i: int)
    requires
        0 <= i < s.len(),
        forall|j: int| 0 <= j < s.len() ==> (#[trigger] s[j]).2 >= 0,
    ensures
        s[i].2 <= sum_counts(s),
    decreases s.len(),
{
    lemma_sum_counts_nonneg(s.drop_last());
    if i < s.len() - 1 {
        lemma_count_le_sum(s.drop_last(), i);
    }
}

proof fn lemma_sum_counts_nonneg(s: Seq<EntryView>)
    requires
        forall|j: int| 0 <= j < s.len() ==> (#[trigger] s[j]).2 >= 0,
    ensures
        sum_counts(s) >= 0,
    decreases s.len(),
{
    if s.len() > 0 {
        lemma_sum_counts_nonneg(s.drop_last());
    }
}

impl Table {
    pub closed spec fn view(&self) -> Seq<EntryView> {
        self.entries@.map_values(|t: Tally| tally_view(t))
    }

    /// Names are distinct, and no sum exceeds what its count of records can add up to.
    pub open spec fn wf(&self) -> bool {
        &&& keys_distinct(self@)
        &&& forall|i: int|
            0 <= i < self@.len() ==> (#[trigger] self@[i]).1 <= self@[i].2 * max_interval()
    }

    pub fn new() -> (r: Table)
        ensures
            r.wf(),
            r@ == Seq::<EntryView>::empty(),
    {
        let r = Table { entries: Vec::new() };
        assert(r@ =~= Seq::<EntryView>::empty());
        r
    }

    pub fn len(&self) -> (r: usize)
        ensures
            r == self@.len(),
    {
        self.entries.len()
    }

    /// The tally at position `i`, in order of first appearance.
    pub fn entry(&self, i: usize) -> (r: &Tally)
        requires
            i < self@.len(),
        ensures
            tally_view(*r) == self@[i as int],
    {
        &self.entries[i]
    }

    /// Adds one record with interval `iv` under `key`.
    pub fn record(&mut self, key: &String, iv: u64)
        requires
            old(self).wf(),
            sum_counts(old(self)@) < u64::MAX,
        ensures
            final(self).wf(),
            final(self)@ == table_add(old(self)@, key@, iv as int),
            sum_counts(final(self)@) == sum_counts(old(self)@) + 1,
    {
        let ghost s = self@;
        let n = self.entries.len();
        let mut i: usize = 0;
        while i < n
            invariant
                n == self@.len(),
                s == self@,
                s == old(self)@,
                self.wf(),
                sum_counts(s) < u64::MAX,
                i <= n,
                forall|j: int| 0 <= j < i ==> (#[trigger] s[j]).0 != key@,
            decreases n - i,
        {
            assert(s[i as int] == tally_view(self.entries@[i as int]));
            if self.entries[i].name == *key {
                assert(has_key(s, key@));
                let ghost k = key_index(s, key@);
                assert(k == i as int) by {
                    if k != i as int {
                        assert(s[k].0 == s[i as int].0);
                    }
                }
                let old_t = &self.entries[i];
                proof {
                    assert forall|j: int| 0 <= j < s.len() implies (#[trigger] s[j]).2 >= 0 by {
                        assert(s[j] == tally_view(self.entries@[j]));
                    }
                    lemma_count_le_sum(s, i as int);
                }
                let count: u64 = old_t.count + 1;
                assert(old_t.sum + iv <= count * max_interval()) by (nonlinear_arith)
                    requires
                        old_t.sum <= old_t.count * max_interval(),
                        iv <= max_interval(),
                        count == old_t.count + 1,
                ;
                assert(count * max_interval() <= u128::MAX) by (nonlinear_arith)
                    requires
                        count <= u64::MAX,
                        max_interval() == u64::MAX,
                ;
                let t = Tally { name: old_t.name.clone(), sum: old_t.sum + iv as u128, count };
                self.entries.set(i, t);
                proof {
                    assert(self@ =~= s.update(i as int, (key@, s[i as int].1 + iv, s[i as int].2 + 1)));
                    lemma_sum_counts_update(s, i as int, (key@, s[i as int].1 + iv, s[i as int].2 + 1));
                }
                return;
            }
            i = i + 1;
        }
        assert(!has_key(s, key@));
        self.entries.push(Tally { name: key.clone(), sum: iv as u128, count: 1 });
        proof {
            assert(self@ =~= s.push((key@, iv as int, 1)));
            lemma_sum_counts_push(s, (key@, iv as int, 1));
        }
    }

    /// Each name with its accumulated interval.
    pub fn by_sum(&self) -> (r: Vec<(String, u128)>)
        requires
            self.wf(),
        ensures
            pairs_view(r@) == sums_of(self@),
            names_distinct(pairs_view(r@)),
    {
        self.pairs(true)
    }

    /// Each name with its record count.
    pub fn by_count(&self) -> (r: Vec<(String, u128)>)
        requires
            self.wf(),
        ensures
            pairs_view(r@) == counts_of(self@),
            names_distinct(pairs_view(r@)),
    {
        self.pairs(false)
    }

    fn pairs(&self, sums: bool) -> (r: Vec<(String, u128)>)
        requires
            self.wf(),
        ensures
            pairs_view(r@) == if sums { sums_of(self@) } else { counts_of(self@) },
            names_distinct(pairs_view(r@)),
    {
        let ghost want = if sums { sums_of(self@) } else { counts_of(self@) };
        let mut r: Vec<(String, u128)> = Vec::new();
        let n = self.entries.len();
        let mut i: usize = 0;
        while i < n
            invariant
                n == self@.len(),
                i <= n,
                want == if sums { sums_of(self@) } else { counts_of(self@) },
                pairs_view(r@) =~= want.take(i as int),
            decreases n - i,
        {
            assert(self@[i as int] == tally_view(self.entries@[i as int]));
            let t = &self.entries[i];
            let v: u128 = if sums { t.sum } else { t.count as u128 };
            let ghost before = pairs_view(r@);
            r.push((t.name.clone(), v));
            assert(pairs_view(r@) =~= before.push(want[i as int]));
            assert(want.take(i + 1) =~= want.take(i as int).push(want[i as int]));
            i = i + 1;
        }
        assert(want.take(n as int) =~= want);
        assert(names_distinct(want)) by {
            assert forall|a: int, b: int| 0 <= a < b < want.len() implies (#[trigger] want[a]).0 != (#[trigger] want[b]).0 by {
                assert(self@[a].0 != self@[b].0);
            }
        }
        r
    }

    /// The sum and count recorded under `key`, if any.
    pub fn get(&self, key: &String) -> (r: Option<(u128, u64)>)
        requires
            self.wf(),
        ensures
            match table_get(self@, key@) {
                Some((sum, count)) => r == Some((sum as u128, count as u64)),
                None => r is None,
            },
    {
        let n = self.entries.len();
        let mut i: usize = 0;
        while i < n
            invariant
                n == self@.len(),
                i <= n,
                self.wf(),
                forall|j: int| 0 <= j < i ==> (#[trigger] self@[j]).0 != key@,
            decreases n - i,
        {
            assert(self@[i as int] == tally_view(self.entries@[i as int]));
            if self.entries[i].name == *key {
                let ghost k = key_index(self@, key@);
                assert(k == i as int) by {
                    if k != i as int {
                        assert(self@[k].0 == self@[i as int].0);
                    }
                }
                return Some((self.entries[i].sum, self.entries[i].count));
            }
            i = i + 1;
        }
        None
    }
}

/// The counters of a run and its two tables.
pub struct Summary {
    /// Lines read, parsed or not.
    pub lines: u64,
    /// Lines that yielded no record.
    pub parse_fails: u64,
    pub calls: Table,
    pub processes: Table,
}

impl Summary {
    /// Records taken into the tables so far.
    pub open spec fn recorded(&self) -> int {
        sum_counts(self.calls@)
    }

    /// Both tables well formed, and every record counted in each of them.
    pub open spec fn wf(&self) -> bool {
        &&& self.calls.wf()
        &&& self.processes.wf()
        &&& sum_counts(self.calls@) == sum_counts(self.processes@)
    }

    /// Every line read is either a failure or a record.
    pub open spec fn balanced(&self) -> bool {
        self.lines == self.parse_fails + self.recorded()
    }

    pub fn new() -> (r: Summary)
        ensures
            r.wf(),
            r.balanced(),
            r.lines == 0,
            r.parse_fails == 0,
            r.calls@ == Seq::<EntryView>::empty(),
            r.processes@ == Seq::<EntryView>::empty(),
    {
        Summary { lines: 0, parse_fails: 0, calls: Table::new(), processes: Table::new() }
    }

    /// Takes one record into both tables.
    pub fn add(&mut self, rec: &DiskIoRec)
        requires
            old(self).wf(),
            old(self).recorded() < u64::MAX,
        ensures
            final(self).wf(),
            final(self).calls@ == table_add(old(self).calls@, rec.call@, rec.interval as int),
            final(self).processes@ == table_add(
                old(self).processes@,
                rec.process@,
                rec.interval as int,
            ),
            final(self).recorded() == old(self).recorded() + 1,
            final(self).lines == old(self).lines,
            final(self).parse_fails == old(self).parse_fails,
    {
        self.processes.record(&rec.process, rec.interval);
        self.calls.record(&rec.call, rec.interval);
    }

    /// Counts one line with its parse outcome: a record goes into the tables,
    /// a failure into `parse_fails`.
    pub fn tally(&mut self, outcome: &Result<DiskIoRec, ParseError>)
        requires
            old(self).wf(),
            old(self).balanced(),
            old(self).lines < u64::MAX,
        ensures
            final(self).wf(),
            final(self).balanced(),
            final(self).lines == old(self).lines + 1,
            match outcome {
                Ok(rec) => {
                    &&& final(self).calls@ == table_add(
                        old(self).calls@,
                        rec.call@,
                        rec.interval as int,
                    )
                    &&& final(self).processes@ == table_add(
                        old(self).processes@,
                        rec.process@,
                        rec.interval as int,
                    )
                    &&& final(self).parse_fails == old(self).parse_fails
                },
                Err(_) => {
                    &&& final(self).calls@ == old(self).calls@
                    &&& final(self).processes@ == old(self).processes@
                    &&& final(self).parse_fails == old(self).parse_fails + 1
                },
            },
    {
        proof {
            lemma_sum_counts_nonneg_table(&self.calls);
        }
        self.lines = self.lines + 1;
        match outcome {
            Ok(rec) => self.add(rec),
            Err(_) => self.parse_fails = self.parse_fails + 1,
        }
    }
}

proof fn lemma_sum_counts_nonneg_table(t: &Table)
    ensures
        sum_counts(t@) >= 0,
{
    assert forall|j: int| 0 <= j < t@.len() implies (#[trigger] t@[j]).2 >= 0 by {
        assert(t@[j] == tally_view(t.entries@[j]));
    }
    lemma_sum_counts_nonneg(t@);
}

/// In every state that `Summary::new` and `Summary::tally` can reach, the
/// failures and the records add up to the lines read, and both tables count
/// the same number of records.
pub proof fn lemma_tallies_balance(s: &Summary)
    requires
        s.wf(),
        s.balanced(),
    ensures
        s.parse_fails + sum_counts(s.calls@) == s.lines,
        sum_counts(s.calls@) == sum_counts(s.processes@),
{
}

} // verus!
