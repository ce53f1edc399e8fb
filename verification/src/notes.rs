//! The notes editor: what each key typed does to the notes.

use vstd::prelude::*;
use crate::text::{chars_of, string_of};

verus! {

/// What a key does, and so what the terminal is to show.
#[derive(PartialEq, Eq, Structural, Debug, Clone, Copy)]
pub enum KeyEffect {
    /// Ctrl+D: the notes are done.
    Finish,
    /// Backspace on non-empty notes: the last character is erased.
    Erase,
    /// A printable ASCII character was added and is echoed.
    Echo(char),
    /// Nothing happens.
    Ignore,
}

/// The effect of the byte `b` on notes holding `text`, and the notes
/// after it.
pub open spec fn key_step(text: Seq<char>, b: u8) -> (KeyEffect, Seq<char>) {
    if b == 4 {
        (KeyEffect::Finish, text)
    } else if b == 8 || b == 127 {
        if text.len() > 0 {
            (KeyEffect::Erase, text.drop_last())
        } else {
            (KeyEffect::Ignore, text)
        }
    } else if 32 <= b < 127 {
        (KeyEffect::Echo(b as char), text.push(b as char))
    } else {
        (KeyEffect::Ignore, text)
    }
}

/// Notes being edited a key at a time.
pub struct NotesEditor {
    text: Vec<char>,
}

impl NotesEditor {
    /// The notes as they stand.
    pub closed spec fn text(self) -> Seq<char> {
        self.text@
    }

    /// An editor holding `initial`.
    pub fn new(initial: &str) -> (e: Self)
        ensures
            e.text() == initial@,
    {
        NotesEditor { text: chars_of(initial) }
    }

    /// Applies the key `b`.
    pub fn key(&mut self, b: u8) -> (effect: KeyEffect)
        ensures
            (effect, final(self).text()) == key_step(old(self).text(), b),
    {
        if b == 4 {
            KeyEffect::Finish
        } else if b == 8 || b == 127 {
            if self.text.len() > 0 {
                self.text.pop();
                KeyEffect::Erase
            } else {
                KeyEffect::Ignore
            }
        } else if 32 <= b && b < 127 {
            let c = b as char;
            self.text.push(c);
            KeyEffect::Echo(c)
        } else {
            KeyEffect::Ignore
        }
    }

    /// The notes as a string.
    pub fn contents(&self) -> (r: String)
        ensures
            r@ == self.text(),
    {
        string_of(&self.text)
    }
}

/// Typing a printable character and then backspace leaves the notes as
/// they were.
pub proof fn law_type_then_erase(text: Seq<char>, b: u8, backspace: u8)
    requires
        32 <= b < 127,
        backspace == 8 || backspace == 127,
    ensures
        key_step(key_step(text, b).1, backspace).1 == text,
        key_step(key_step(text, b).1, backspace).0 == KeyEffect::Erase,
{
    assert(text.push(b as char).drop_last() =~= text);
}

/// Ctrl+D and keys that are neither printable nor backspace leave the
/// notes unchanged.
pub proof fn law_other_keys_keep_notes(text: Seq<char>, b: u8)
    requires
        !(b == 8 || b == 127),
        !(32 <= b < 127),
    ensures
        key_step(text, b).1 == text,
{
}

} // verus!
