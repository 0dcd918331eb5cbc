//! The count of corrupt records, and when to warn of them.
use vstd::prelude::*;

verus! {

/// A warning is given with the first corrupt record, and each time so many have been counted.
pub const WARN_EVERY: u64 = 100_000;

/// Whether a warning is given when the count has come to `n`.
pub open spec fn warns_at(n: int) -> bool {
    n == 1 || n % WARN_EVERY as int == 0
}

/// The counts at which a warning is given while `more` records are counted from `count` on.
pub open spec fn warnings(count: int, more: int) -> Seq<u64>
    decreases more,
{
    if more <= 0 {
        Seq::empty()
    } else if warns_at(count + more) {
        warnings(count, more - 1).push((count + more) as u64)
    } else {
        warnings(count, more - 1)
    }
}

/// How many corrupt records have been replaced.
#[derive(Debug)]
pub struct CorruptEntries {
    pub count: u64,
}

impl CorruptEntries {
    pub fn new() -> (entries: Self)
        ensures
            entries.count == 0,
    {
        CorruptEntries { count: 0 }
    }

    /// Counts one record, and gives the count if a warning is due.
    pub fn report_corrupt_entry(&mut self) -> (warning: Option<u64>)
        requires
            old(self).count < u64::MAX,
        ensures
            final(self).count == old(self).count + 1,
            warning == if warns_at(final(self).count as int) {
                Some(final(self).count)
            } else {
                None
            },
    {
        self.count = self.count + 1;
        if self.count == 1 || self.count % WARN_EVERY == 0 {
            Some(self.count)
        } else {
            None
        }
    }

    /// Counts the corrupt records of a batch, and gives the counts at which a warning is due.
    pub fn report_batch(&mut self, corrupt: usize) -> (due: Vec<u64>)
        requires
            old(self).count + corrupt <= u64::MAX,
        ensures
            final(self).count == old(self).count + corrupt,
            due@ == warnings(old(self).count as int, corrupt as int),
    {
        let mut due: Vec<u64> = Vec::new();
        let mut i: usize = 0;
        while i < corrupt
            invariant
                i <= corrupt,
                old(self).count + corrupt <= u64::MAX,
                self.count == old(self).count + i,
                due@ == warnings(old(self).count as int, i as int),
            decreases corrupt - i,
        {
            match self.report_corrupt_entry() {
                Some(count) => due.push(count),
                None => {},
            }
            i = i + 1;
        }
        due
    }
}

/// How many corrupt records have been replaced so far.
pub fn corrupt_entries_skipped(entries: &CorruptEntries) -> (count: u64)
    ensures
        count == entries.count,
{
    entries.count
}

/// It makes no difference to the warnings whether records are counted in one batch or in two.
pub proof fn law_warnings_do_not_depend_on_batches(count: int, first: int, second: int)
    requires
        0 <= first,
        0 <= second,
    ensures
        warnings(count, first) + warnings(count + first, second) == warnings(count, first + second),
    decreases second,
{
    if second > 0 {
        law_warnings_do_not_depend_on_batches(count, first, second - 1);
    }
    assert(warnings(count, first) + warnings(count + first, second) =~= warnings(
        count,
        first + second,
    ));
}

/// Warnings are given with the first record, and with each one that makes the count a multiple of
/// 100,000: those among the records counted, in order, and no others.
pub proof fn law_warnings_are_due(count: int, more: int, n: u64)
    requires
        0 <= count,
        0 <= more,
        count + more <= u64::MAX,
    ensures
        warnings(count, more).contains(n) <==> count < n <= count + more && (n == 1 || n % 100_000
            == 0),
        forall|i: int, j: int|
            0 <= i < j < warnings(count, more).len() ==> #[trigger] warnings(count, more)[i]
                < #[trigger] warnings(count, more)[j],
    decreases more,
{
    lemma_warnings(count, more);
    if more > 0 {
        law_warnings_are_due(count, more - 1, n);
        let before = warnings(count, more - 1);
        let now = warnings(count, more);
        let last = (count + more) as u64;
        if warns_at(count + more) {
            assert(now == before.push(last));
            assert(now[before.len() as int] == last);
            if before.contains(n) {
                let k = before.index_of(n);
                assert(now[k] == n);
            }
            if now.contains(n) && n != last {
                let k = now.index_of(n);
                assert(before[k] == n);
            }
        }
    }
}

proof fn lemma_warnings(count: int, more: int)
    requires
        0 <= count,
        0 <= more,
        count + more <= u64::MAX,
    ensures
        forall|i: int|
            0 <= i < warnings(count, more).len() ==> count < #[trigger] warnings(count, more)[i]
                <= count + more,
        forall|i: int, j: int|
            0 <= i < j < warnings(count, more).len() ==> #[trigger] warnings(count, more)[i]
                < #[trigger] warnings(count, more)[j],
    decreases more,
{
    if more > 0 {
        lemma_warnings(count, more - 1);
        let before = warnings(count, more - 1);
        let now = warnings(count, more);
        let last = (count + more) as u64;
        assert(now == before || now == before.push(last));
        assert forall|i: int| 0 <= i < now.len() implies count < #[trigger] now[i] <= count + more by {
            if i < before.len() {
                assert(now[i] == before[i]);
            }
        }
        assert forall|i: int, j: int| 0 <= i < j < now.len() implies #[trigger] now[i]
            < #[trigger] now[j] by {
            assert(now[i] == before[i]);
            if j < before.len() {
                assert(now[j] == before[j]);
            }
        }
    }
}

} // verus!
