//! The bounded history of commands.
use std::collections::VecDeque;
use vstd::prelude::*;
use vstd::string::*;

use crate::text::{chars_of, text_of, trim, trim_bounds};

verus! {

/// How many commands the history keeps.
pub const HISTORY_SIZE: usize = 10;

/// `h` after `command` was entered: blank commands leave it as it is,
/// any other is kept trimmed, and the oldest entry goes once it is full.
pub open spec fn recorded(h: Seq<Seq<char>>, command: Seq<char>) -> Seq<Seq<char>> {
    if trim(command).len() == 0 {
        h
    } else if h.len() >= HISTORY_SIZE {
        h.subrange(1, h.len() as int).push(trim(command))
    } else {
        h.push(trim(command))
    }
}

/// The entries of `h`, oldest first, separated by newlines.
pub open spec fn join_lines(h: Seq<Seq<char>>) -> Seq<char>
    decreases h.len(),
{
    if h.len() == 0 {
        Seq::empty()
    } else if h.len() == 1 {
        h[0]
    } else {
        join_lines(h.subrange(0, h.len() - 1)) + seq!['\n'] + h.last()
    }
}

/// The text of each string in `d`.
pub open spec fn texts(d: Seq<String>) -> Seq<Seq<char>> {
    d.map_values(|s: String| s@)
}

/// The most recent commands, oldest first.
pub struct History {
    entries: VecDeque<String>,
}

impl View for History {
    type V = Seq<Seq<char>>;

    closed spec fn view(&self) -> Seq<Seq<char>> {
        texts(self.entries@)
    }
}

impl History {
    pub open spec fn wf(&self) -> bool {
        self@.len() <= HISTORY_SIZE
    }

    pub fn new() -> (r: History)
        ensures
            r@ == Seq::<Seq<char>>::empty(),
            r.wf(),
    {
        let r = History { entries: VecDeque::new() };
        assert(r@ =~= Seq::<Seq<char>>::empty());
        r
    }

    /// A copy that shares nothing with `self`.
    pub fn duplicate(&self) -> (r: History)
        ensures
            r@ == self@,
    {
        let mut entries: VecDeque<String> = VecDeque::new();
        let mut i: usize = 0;
        while i < self.entries.len()
            invariant
                i <= self.entries@.len(),
                texts(entries@) == self@.subrange(0, i as int),
            decreases self.entries@.len() - i,
        {
            let e = self.entries[i].clone();
            assert(e@ == self@[i as int]);
            let ghost before = entries@;
            entries.push_back(e);
            assert(entries@ == before.push(e));
            assert(texts(entries@) =~= texts(before).push(e@));
            assert(self@.subrange(0, i + 1) =~= self@.subrange(0, i as int).push(e@));
            i += 1;
        }
        let r = History { entries };
        assert(r@ =~= self@);
        r
    }

    /// Keeps `command`, trimmed, unless it is blank.
    pub fn record(&mut self, command: &str)
        requires
            old(self).wf(),
        ensures
            final(self).wf(),
            final(self)@ == recorded(old(self)@, command@),
    {
        let v = chars_of(command);
        let (lo, hi) = trim_bounds(&v);
        if lo == hi {
            return;
        }
        if self.entries.len() == HISTORY_SIZE {
            self.entries.pop_front();
        }
        let t = text_of(command, lo, hi);
        self.entries.push_back(t);
        assert(self@ =~= recorded(old(self)@, command@));
    }

    /// The entries, oldest first, one per line, with no newline at the end.
    pub fn render(&self) -> (r: String)
        ensures
            r@ == join_lines(self@),
    {
        let mut r = String::new();
        let n = self.entries.len();
        let mut i: usize = 0;
        while i < n
            invariant
                n == self@.len(),
                i <= n,
                r@ == join_lines(self@.subrange(0, i as int)),
            decreases n - i,
        {
            if i > 0 {
                proof { reveal_strlit("\n"); }
                r.append("\n");
            }
            r.append(self.entries[i].as_str());
            proof {
                let s = self@.subrange(0, i + 1);
                assert(s.subrange(0, i as int) =~= self@.subrange(0, i as int));
                if i == 0 {
                    assert(r@ =~= join_lines(s));
                }
            }
            i += 1;
        }
        assert(self@.subrange(0, n as int) =~= self@);
        r
    }
}

} // verus!
