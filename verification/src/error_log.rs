//! The error log of a running application: what went wrong, newest first
//! (a stack). A footer shows the latest; a dialog lists them all.

use vstd::prelude::*;

use std::time::SystemTime;

verus! {

#[verifier::external_type_specification]
#[verifier::external_body]
pub struct ExSystemTime(SystemTime);

/// The current time of the system clock (`SystemTime::now`). Nothing is
/// stated of the value: it is whatever the clock says.
#[verifier::external_body]
fn clock_now() -> SystemTime {
    SystemTime::now()
}

#[derive(Debug)]
pub struct ErrorEntry {
    /// Identifies the entry, to remove it from the list.
    pub id: u64,
    pub time: SystemTime,
    pub text: String,
}

impl Clone for ErrorEntry {
    fn clone(&self) -> (r: Self)
        ensures
            r == *self,
    {
        ErrorEntry { id: self.id, time: self.time, text: self.text.clone() }
    }
}

#[derive(Debug)]
pub struct ErrorLog {
    /// Newest first.
    entries: Vec<ErrorEntry>,
    next_id: u64,
}

impl View for ErrorLog {
    type V = Seq<ErrorEntry>;

    closed spec fn view(&self) -> Seq<ErrorEntry> {
        self.entries@
    }
}

/// The ids of `s` decrease strictly from the first entry to the last, and are
/// all below `bound`.
pub open spec fn ids_below_decreasing(s: Seq<ErrorEntry>, bound: u64) -> bool {
    &&& forall|i: int| 0 <= i < s.len() ==> (#[trigger] s[i]).id < bound
    &&& forall|i: int, j: int| 0 <= i < j < s.len() ==> (#[trigger] s[i]).id > (#[trigger] s[j]).id
}

/// The entries of `s` whose id is not `id`, in order.
pub open spec fn without_id(s: Seq<ErrorEntry>, id: u64) -> Seq<ErrorEntry>
    decreases s.len(),
{
    if s.len() == 0 {
        s
    } else if s.last().id == id {
        without_id(s.drop_last(), id)
    } else {
        without_id(s.drop_last(), id).push(s.last())
    }
}

impl Default for ErrorLog {
    /// An empty log.
    fn default() -> (r: Self)
        ensures
            r.wf(),
            r@ == Seq::<ErrorEntry>::empty(),
            r.next_id() == 0,
    {
        ErrorLog { entries: Vec::new(), next_id: 0 }
    }
}

impl ErrorLog {
    /// The id the next entry will get.
    pub closed spec fn next_id(&self) -> u64 {
        self.next_id
    }

    /// Every id is below the next one, and ids decrease from the newest
    /// entry to the oldest: no two entries share an id, and an id is never
    /// given again.
    pub closed spec fn wf(&self) -> bool {
        ids_below_decreasing(self.entries@, self.next_id)
    }

    /// The ids of a well-formed log are distinct and below the next id.
    pub proof fn lemma_ids_distinct(&self)
        requires
            self.wf(),
        ensures
            ids_below_decreasing(self@, self.next_id()),
    {
    }

    /// Puts an error on top of the stack, unless it is identical to the one
    /// on top (a fault that persists would fill the list). Returns whether it
    /// was added.
    pub fn push(&mut self, text: String) -> (added: bool)
        requires
            old(self).wf(),
            old(self).next_id() < u64::MAX,
        ensures
            final(self).wf(),
            added == !(old(self)@.len() > 0 && old(self)@[0].text@ == text@),
            added ==> {
                &&& final(self)@.len() == old(self)@.len() + 1
                &&& final(self)@[0].id == old(self).next_id()
                &&& final(self)@[0].text == text
                &&& final(self)@.skip(1) == old(self)@
                &&& final(self).next_id() == old(self).next_id() + 1
            },
            !added ==> final(self)@ == old(self)@ && final(self).next_id() == old(self).next_id(),
    {
        if self.entries.len() > 0 && self.entries[0].text == text {
            return false;
        }
        let entry = ErrorEntry { id: self.next_id, time: clock_now(), text };
        let ghost before = self.entries@;
        self.entries.insert(0, entry);
        self.next_id = self.next_id + 1;
        assert(self.entries@.skip(1) =~= before);
        assert forall|i: int, j: int| 0 <= i < j < self.entries@.len() implies (
        #[trigger] self.entries@[i]).id > (#[trigger] self.entries@[j]).id by {
            if i > 0 {
                assert(self.entries@[i] == before[i - 1]);
            }
            assert(self.entries@[j] == before[j - 1]);
        }
        assert forall|i: int| 0 <= i < self.entries@.len() implies (
        #[trigger] self.entries@[i]).id < self.next_id by {
            if i > 0 {
                assert(self.entries@[i] == before[i - 1]);
            }
        }
        true
    }

    /// Removes the entry with id `id`, if there is one.
    pub fn remove(&mut self, id: u64)
        requires
            old(self).wf(),
        ensures
            final(self).wf(),
            final(self)@ == without_id(old(self)@, id),
            final(self).next_id() == old(self).next_id(),
    {
        let n = self.entries.len();
        let mut kept: Vec<ErrorEntry> = Vec::new();
        let mut i: usize = 0;
        while i < n
            invariant
                n == self.entries@.len(),
                ids_below_decreasing(self.entries@, self.next_id),
                i <= n,
                kept@ == without_id(self.entries@.take(i as int), id),
                ids_below_decreasing(kept@, self.next_id),
                forall|a: int, b: int|
                    0 <= a < kept@.len() && i <= b < n ==> (#[trigger] kept@[a]).id > (
                    #[trigger] self.entries@[b]).id,
            decreases n - i,
        {
            let entry = &self.entries[i];
            proof {
                assert(self.entries@.take(i + 1).drop_last() =~= self.entries@.take(i as int));
            }
            if entry.id != id {
                kept.push(entry.clone());
            }
            i = i + 1;
        }
        proof {
            assert(self.entries@.take(n as int) =~= self.entries@);
        }
        self.entries = kept;
    }

    /// Empties the log (ids are still never given again).
    pub fn clear(&mut self)
        requires
            old(self).wf(),
        ensures
            final(self).wf(),
            final(self)@ == Seq::<ErrorEntry>::empty(),
            final(self).next_id() == old(self).next_id(),
    {
        self.entries = Vec::new();
    }

    /// The most recent error, if any.
    pub fn latest(&self) -> (r: Option<&ErrorEntry>)
        ensures
            match r {
                Some(e) => self@.len() > 0 && *e == self@[0],
                None => self@.len() == 0,
            },
    {
        if self.entries.len() > 0 {
            Some(&self.entries[0])
        } else {
            None
        }
    }

    /// Every entry, newest first.
    pub fn entries(&self) -> (r: &[ErrorEntry])
        ensures
            r@ == self@,
    {
        self.entries.as_slice()
    }

    pub fn is_empty(&self) -> (r: bool)
        ensures
            r == (self@.len() == 0),
    {
        self.entries.len() == 0
    }

    pub fn len(&self) -> (r: usize)
        ensures
            r == self@.len(),
    {
        self.entries.len()
    }
}


/// An entry pushed on a well-formed log gets an id greater than every id
/// the log held, so ids are never given twice and stay in decreasing
/// order, newest first.
pub proof fn lemma_pushed_id_is_the_greatest(before: Seq<ErrorEntry>, next_id: u64, after: Seq<ErrorEntry>)
    requires
        ids_below_decreasing(before, next_id),
        after.len() == before.len() + 1,
        after[0].id == next_id,
        after.skip(1) == before,
        next_id < u64::MAX,
    ensures
        forall|i: int| 0 <= i < before.len() ==> after[0].id > (#[trigger] before[i]).id,
        ids_below_decreasing(after, (next_id + 1) as u64),
{
    assert forall|i: int, j: int| 0 <= i < j < after.len() implies (#[trigger] after[i]).id > (#[trigger] after[j]).id by {
        assert(after[j] == before[j - 1]);
        if i > 0 {
            assert(after[i] == before[i - 1]);
        }
    }
    assert forall|i: int| 0 <= i < after.len() implies (#[trigger] after[i]).id < next_id + 1 by {
        if i > 0 {
            assert(after[i] == before[i - 1]);
        }
    }
}

} // verus!
