//! The clipboard: the one place a reply leaves the process.
//!
//! Leaving takes a copy back off the clipboard, unless something else has been copied
//! since. The clipboard itself is the caller's.

use crate::text::str_eq;
use vstd::prelude::*;

verus! {

/// What was last copied from here, once anything was. A copy that failed changes
/// nothing: what was there before it is still there.
#[derive(Debug)]
pub struct Clip {
    pub copied: Option<String>,
}

impl View for Clip {
    type V = Option<Seq<char>>;

    open spec fn view(&self) -> Option<Seq<char>> {
        match self.copied {
            Some(s) => Some(s@),
            None => None,
        }
    }
}

/// What was last copied, after one more try.
pub open spec fn copied(before: Option<Seq<char>>, text: Seq<char>, ok: bool) -> Option<Seq<char>> {
    if ok {
        Some(text)
    } else {
        before
    }
}

/// Whether the clipboard, which holds `now`, still holds what was copied.
pub open spec fn still_there(copied: Option<Seq<char>>, now: Option<Seq<char>>) -> bool {
    copied matches Some(s) && s.len() > 0 && now == Some(s)
}

impl Clip {
    pub fn new() -> (c: Clip)
        ensures
            c@ is None,
    {
        Clip { copied: None }
    }

    /// A copy was tried.
    pub fn copy(&mut self, text: &str, ok: bool)
        ensures
            final(self)@ == copied(old(self)@, text@, ok),
    {
        if ok {
            self.copied = Some(text.to_owned());
        }
    }

    /// Whether the clipboard is to be cleared, by what it holds: only where it still
    /// holds what was copied from here.
    pub fn forget(&mut self, now: Option<&str>) -> (clear: bool)
        ensures
            final(self)@ is None,
            clear == still_there(
                old(self)@,
                match now {
                    Some(n) => Some(n@),
                    None => None,
                },
            ),
    {
        let copied = self.copied.take();
        match (copied, now) {
            (Some(s), Some(n)) => !s.as_str().is_empty() && str_eq(n, s.as_str()),
            _ => false,
        }
    }
}

/// A copy is taken back off the clipboard, however many copies failed since: the
/// clipboard still holds it, as nothing else got there.
pub proof fn copies_are_taken_back(before: Option<Seq<char>>, text: Seq<char>, failed: Seq<Seq<char>>)
    requires
        text.len() > 0,
    ensures
        still_there(
            failed.fold_left(
                copied(before, text, true),
                |c: Option<Seq<char>>, t: Seq<char>| copied(c, t, false),
            ),
            Some(text),
        ),
    decreases failed.len(),
{
    if failed.len() > 0 {
        copies_are_taken_back(before, text, failed.drop_last());
    }
}

} // verus!
