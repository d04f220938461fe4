//! What the library needs to know of the terminal: which one it is, and the
//! keys it sends in reply to the probe.

use crate::text::{contains_chars, contains_text, to_chars, to_text};
use vstd::prelude::*;

verus! {

/// Whether the terminal named `term` is one that draws images: its name
/// holds `kitty`. Without a name, given as `None`, it is taken not to be.
pub fn is_kitty(term: Option<&str>) -> (kitty: bool)
    ensures
        kitty == (term is Some && contains_text(term->Some_0@, "kitty"@)),
{
    match term {
        Some(name) => contains_chars(&to_chars(name), &to_chars("kitty")),
        None => false,
    }
}

/// A key read from the terminal.
pub enum TerminalKey {
    /// A character.
    Char(char),
    /// An escape sequence that is not a known key, without its escape.
    UnknownEscSeq(Vec<char>),
    /// Input that is no key at all.
    Unknown,
    /// Any other key.
    Other,
}

/// Whether `key` ends a reply: the terminator `ESC \`, or input that is no
/// key.
pub open spec fn ends_reply(key: TerminalKey) -> bool {
    match key {
        TerminalKey::UnknownEscSeq(seq) => seq@ == seq!['\\'],
        TerminalKey::Unknown => true,
        _ => false,
    }
}

/// The reply after `key` has been read: a character is added to it, any
/// other key leaves it as it is.
pub open spec fn heard_after(heard: Seq<char>, key: TerminalKey) -> Seq<char> {
    match key {
        TerminalKey::Char(c) => heard.push(c),
        _ => heard,
    }
}

/// Collects the terminal's reply key by key.
pub struct ReplyListener {
    /// The characters read so far.
    pub heard: Vec<char>,
    /// Whether the reply has ended.
    pub done: bool,
}

impl ReplyListener {
    /// A listener that has read nothing.
    pub fn new() -> (listener: ReplyListener)
        ensures
            listener.heard@ == Seq::<char>::empty(),
            !listener.done,
    {
        ReplyListener { heard: Vec::new(), done: false }
    }

    /// Takes the next key. Once the reply has ended, further keys change
    /// nothing. Returns whether the reply has ended.
    pub fn feed(&mut self, key: &TerminalKey) -> (done: bool)
        ensures
            old(self).done ==> final(self).heard@ == old(self).heard@ && final(self).done,
            !old(self).done ==> final(self).heard@ == heard_after(old(self).heard@, *key)
                && final(self).done == ends_reply(*key),
            done == final(self).done,
    {
        if self.done {
            return true;
        }
        match key {
            TerminalKey::Char(c) => {
                self.heard.push(*c);
            },
            TerminalKey::UnknownEscSeq(seq) => {
                if seq.len() == 1 && seq[0] == '\\' {
                    assert(seq@ =~= seq!['\\']);
                    self.done = true;
                }
            },
            TerminalKey::Unknown => {
                self.done = true;
            },
            TerminalKey::Other => {},
        }
        self.done
    }

    /// The reply read so far.
    pub fn reply(&self) -> (text: String)
        ensures
            text@ == self.heard@,
    {
        to_text(&self.heard)
    }
}

} // verus!
