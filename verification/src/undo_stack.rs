//! A stack of edits that can be undone and done again.

use vstd::prelude::*;
use vstd::std_specs::cmp::PartialEqSpec;

use crate::numbers::decimal_of;
use crate::numbers::decimal_text;
use crate::text::append_chars;
use crate::text::string_of;

verus! {

/// The edits made, the last one on top, and the edits undone since, the last
/// undone on top.
#[derive(Debug)]
pub struct UndoStack<T: Clone> {
    undo: Vec<T>,
    redo: Vec<T>,
}

impl<T> Default for UndoStack<T> where T: Clone, T: PartialEq {
    fn default() -> (stack: Self)
        ensures
            stack.undone() == Seq::<T>::empty(),
            stack.done() == Seq::<T>::empty(),
    {
        Self { undo: Vec::new(), redo: Vec::new() }
    }
}

impl<T> UndoStack<T> where T: Clone, T: PartialEq {
    /// The edits that can be undone, the last one made at the end.
    pub closed spec fn done(self) -> Seq<T> {
        self.undo@
    }

    /// The edits that can be done again, the last one undone at the end.
    pub closed spec fn undone(self) -> Seq<T> {
        self.redo@
    }

    /// Whether `edit` repeats the last edit made.
    pub open spec fn repeats(self, edit: T) -> bool {
        self.done().len() > 0 && self.done().last().eq_spec(&edit)
    }

    /// Whether there is an edit to undo.
    pub fn can_undo(self) -> (yes: bool)
        ensures
            yes == (self.done().len() > 0),
    {
        self.undo.len() > 0
    }

    /// Takes back the last edit: it is handed out, and a copy of it can be
    /// done again.
    pub fn undo(&mut self) -> (edit: Option<T>)
        ensures
            old(self).done().len() == 0 ==> edit is None && final(self).done() == old(
                self,
            ).done() && final(self).undone() == old(self).undone(),
            old(self).done().len() > 0 ==> {
                &&& edit == Some(old(self).done().last())
                &&& final(self).done() == old(self).done().drop_last()
                &&& final(self).undone().len() == old(self).undone().len() + 1
                &&& final(self).undone().drop_last() == old(self).undone()
                &&& cloned(old(self).done().last(), final(self).undone().last())
            },
    {
        if let Some(edit) = self.undo.pop() {
            let ghost before = self.redo@;
            self.redo.push(edit.clone());
            assert(self.redo@.drop_last() =~= before);
            return Some(edit);
        }
        None
    }

    /// Whether there is an edit to do again.
    pub fn can_redo(self) -> (yes: bool)
        ensures
            yes == (self.undone().len() > 0),
    {
        self.redo.len() > 0
    }

    /// Does the last undone edit again: it is handed out, and a copy of it
    /// can be undone.
    pub fn redo(&mut self) -> (edit: Option<T>)
        ensures
            old(self).undone().len() == 0 ==> edit is None && final(self).done() == old(
                self,
            ).done() && final(self).undone() == old(self).undone(),
            old(self).undone().len() > 0 ==> {
                &&& edit == Some(old(self).undone().last())
                &&& final(self).undone() == old(self).undone().drop_last()
                &&& final(self).done().len() == old(self).done().len() + 1
                &&& final(self).done().drop_last() == old(self).done()
                &&& cloned(old(self).undone().last(), final(self).done().last())
            },
    {
        if let Some(edit) = self.redo.pop() {
            let ghost before = self.undo@;
            self.undo.push(edit.clone());
            assert(self.undo@.drop_last() =~= before);
            return Some(edit);
        }
        None
    }

    /// Records an edit. One that equals the last edit made changes nothing;
    /// any other goes on top, and nothing can be done again.
    pub fn edit(&mut self, edit: T)
        ensures
            T::obeys_eq_spec() && old(self).repeats(edit) ==> *final(self) == *old(self),
            T::obeys_eq_spec() && !old(self).repeats(edit) ==> final(self).done() == old(
                self,
            ).done().push(edit) && final(self).undone() == Seq::<T>::empty(),
            final(self).done().len() > 0,
    {
        if self.undo.len() > 0 {
            if self.undo[self.undo.len() - 1] == edit {
                return ;
            }
        }
        self.redo.clear();
        self.undo.push(edit);
    }

    /// How many edits are made, over how many there are in all: `2/5`.
    pub fn to_string(&self) -> (text: String)
        ensures
            text@ == decimal_text(self.done().len()) + seq!['/'] + decimal_text(
                self.done().len() + self.undone().len(),
            ),
    {
        let mut out = decimal_of(self.undo.len() as u128);
        out.push('/');
        let total = decimal_of((self.undo.len() as u128) + (self.redo.len() as u128));
        append_chars(&mut out, &total);
        string_of(&out)
    }
}

} // verus!
