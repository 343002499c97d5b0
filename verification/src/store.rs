//! The single shared text value.

use vstd::prelude::*;

verus! {

/// The value after one write: the new value, whole. Nothing of the old
/// value is kept or merged.
pub open spec fn after_write(current: Seq<char>, new_value: Seq<char>) -> Seq<char> {
    new_value
}

/// The value reached by applying `writes` one after another, each through
/// [`after_write`].
pub open spec fn fold_writes(initial: Seq<char>, writes: Seq<Seq<char>>) -> Seq<char>
    decreases writes.len(),
{
    if writes.len() == 0 {
        initial
    } else {
        after_write(fold_writes(initial, writes.drop_last()), writes.last())
    }
}

/// Holder of the current text. It starts empty and lives as long as its
/// owner; a write replaces the text whole.
pub struct Store {
    value: String,
}

impl View for Store {
    type V = Seq<char>;

    closed spec fn view(&self) -> Seq<char> {
        self.value@
    }
}

impl Store {
    /// A store holding the empty text.
    pub fn new() -> (store: Store)
        ensures
            store@ == Seq::<char>::empty(),
    {
        Store { value: String::new() }
    }

    /// A copy of the current text.
    pub fn read(&self) -> (text: String)
        ensures
            text@ == self@,
    {
        self.value.clone()
    }

    /// Replaces the current text by `new_value`, whatever it holds.
    pub fn write(&mut self, new_value: String)
        ensures
            final(self)@ == after_write(old(self)@, new_value@),
    {
        self.value = new_value;
    }
}

/// Last writer wins: after any non-empty run of writes, applied one after
/// another, the store holds the value of the last of them.
pub proof fn lemma_last_writer_wins(initial: Seq<char>, writes: Seq<Seq<char>>)
    requires
        writes.len() > 0,
    ensures
        fold_writes(initial, writes) == writes.last(),
{
}

} // verus!
