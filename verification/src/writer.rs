//! The pending batch.

use vstd::prelude::*;
use crate::record::Record;

verus! {

/// Gathers records until `batch_size` of them are pending, then hands the
/// whole batch out to be written in one bulk operation.
///
/// A batch size of zero or less is never reached: everything then stays
/// pending until `flush_remaining`.
pub struct BatchWriter<D> {
    batch_size: i32,
    pending: Vec<Record<D>>,
}

impl<D> BatchWriter<D> {
    /// The records that are pending, oldest first.
    pub closed spec fn view(&self) -> Seq<Record<D>> {
        self.pending@
    }

    /// The size at which a batch is handed out.
    pub closed spec fn batch_size(&self) -> int {
        self.batch_size as int
    }

    /// A positive batch size is never reached by what is pending.
    pub open spec fn wf(&self) -> bool {
        self.batch_size() > 0 ==> self@.len() < self.batch_size()
    }

    /// A writer with nothing pending.
    pub fn new(batch_size: i32) -> (w: Self)
        ensures
            w.wf(),
            w@ == Seq::<Record<D>>::empty(),
            w.batch_size() == batch_size,
    {
        BatchWriter { batch_size, pending: Vec::new() }
    }

    /// How many records are pending.
    pub fn len(&self) -> (n: usize)
        ensures
            n == self@.len(),
    {
        self.pending.len()
    }

    /// Whether nothing is pending.
    pub fn is_empty(&self) -> (r: bool)
        ensures
            r == (self@.len() == 0),
    {
        self.pending.len() == 0
    }

    /// Appends `record`. When that fills the batch, the batch is handed out
    /// and nothing stays pending; otherwise the record stays pending.
    pub fn push(&mut self, record: Record<D>) -> (full: Option<Vec<Record<D>>>)
        requires
            old(self).wf(),
        ensures
            final(self).wf(),
            final(self).batch_size() == old(self).batch_size(),
            (full is Some) == (old(self)@.len() + 1 == old(self).batch_size()),
            match full {
                Some(batch) => batch@ == old(self)@.push(record) && final(self)@
                    == Seq::<Record<D>>::empty(),
                None => final(self)@ == old(self)@.push(record),
            },
    {
        self.pending.push(record);
        if self.batch_size > 0 && self.pending.len() == self.batch_size as usize {
            let mut batch: Vec<Record<D>> = Vec::new();
            std::mem::swap(&mut self.pending, &mut batch);
            Some(batch)
        } else {
            None
        }
    }

    /// Hands out whatever is pending, or nothing where nothing is.
    pub fn flush_remaining(&mut self) -> (rest: Option<Vec<Record<D>>>)
        ensures
            final(self).batch_size() == old(self).batch_size(),
            final(self)@ == Seq::<Record<D>>::empty(),
            final(self).wf(),
            (rest is Some) == (old(self)@.len() > 0),
            rest is Some ==> rest->0@ == old(self)@,
            rest is None ==> final(self)@ == old(self)@,
    {
        if self.pending.len() == 0 {
            proof {
                assert(self.pending@ =~= Seq::<Record<D>>::empty());
            }
            None
        } else {
            let mut batch: Vec<Record<D>> = Vec::new();
            std::mem::swap(&mut self.pending, &mut batch);
            Some(batch)
        }
    }
}

} // verus!
