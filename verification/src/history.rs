//! The history buffer: a bounded, insertion-ordered log of executed
//! statements, replayable by index. When the buffer is full the oldest
//! entry is evicted before a new one is appended.

use vstd::prelude::*;
use crate::text::{dec_rep, usize_dec};

verus! {

/// A bounded FIFO log of executed statement lines, indexed from the oldest
/// entry (0) to the newest.
pub struct History {
    capacity: usize,
    entries: Vec<String>,
}

impl View for History {
    type V = Seq<Seq<char>>;

    closed spec fn view(&self) -> Seq<Seq<char>> {
        self.entries.deep_view()
    }
}

/// The history after one push: append, evicting the oldest entry first
/// when the buffer is at capacity.
pub open spec fn spec_push(h: Seq<Seq<char>>, cap: int, line: Seq<char>) -> Seq<Seq<char>> {
    if h.len() < cap {
        h.push(line)
    } else {
        h.drop_first().push(line)
    }
}

/// The printed form of a history: one line `index: entry` per entry,
/// oldest first.
pub open spec fn spec_history_lines(h: Seq<Seq<char>>) -> Seq<Seq<char>> {
    Seq::new(h.len(), |i: int| dec_rep(i as nat) + seq![':', ' '] + h[i])
}

impl History {
    pub closed spec fn spec_capacity(&self) -> int {
        self.capacity as int
    }

    pub open spec fn inv(&self) -> bool {
        &&& 1 <= self.spec_capacity() < usize::MAX
        &&& self@.len() <= self.spec_capacity()
    }

    /// An empty history that will hold at most `capacity` entries.
    pub fn new(capacity: usize) -> (r: History)
        requires
            1 <= capacity < usize::MAX,
        ensures
            r.inv(),
            r.spec_capacity() == capacity,
            r@ == Seq::<Seq<char>>::empty(),
    {
        let r = History { capacity, entries: Vec::new() };
        proof {
            assert(r@ =~= Seq::<Seq<char>>::empty());
        }
        r
    }

    pub fn len(&self) -> (r: usize)
        ensures
            r == self@.len(),
    {
        self.entries.len()
    }

    pub fn capacity(&self) -> (r: usize)
        ensures
            r == self.spec_capacity(),
    {
        self.capacity
    }

    /// Records an executed line, evicting the oldest entry when full.
    pub fn push(&mut self, line: &str)
        requires
            old(self).inv(),
        ensures
            final(self).inv(),
            final(self).spec_capacity() == old(self).spec_capacity(),
            final(self)@ == spec_push(old(self)@, old(self).spec_capacity(), line@),
    {
        if self.entries.len() == self.capacity {
            self.entries.remove(0);
            proof {
                assert(self.entries.deep_view() =~= old(self).entries.deep_view().drop_first());
            }
        }
        let ghost mid = self.entries.deep_view();
        self.entries.push(String::from_str(line));
        proof {
            assert(self.entries.deep_view() =~= mid.push(line@));
            assert(final(self)@ =~= spec_push(old(self)@, old(self).spec_capacity(), line@));
        }
    }

    /// The stored line at `index`, or `None` when the index is out of range.
    pub fn get(&self, index: usize) -> (r: Option<&String>)
        ensures
            match r {
                Some(s) => index < self@.len() && s@ == self@[index as int],
                None => index >= self@.len(),
            },
    {
        if index < self.entries.len() {
            Some(&self.entries[index])
        } else {
            None
        }
    }

    /// The printed form of the history, one `index: entry` line per entry,
    /// oldest first.
    pub fn render_lines(&self) -> (r: Vec<String>)
        ensures
            r.deep_view() == spec_history_lines(self@),
    {
        let mut out: Vec<String> = Vec::new();
        let n = self.entries.len();
        let mut i: usize = 0;
        while i < n
            invariant
                i <= n,
                n == self@.len(),
                n == self.entries@.len(),
                self@ == self.entries.deep_view(),
                out.deep_view() =~= spec_history_lines(self@).take(i as int),
            decreases n - i,
        {
            let num = usize_dec(i);
            let line = num.concat(": ").concat(self.entries[i].as_str());
            proof {
                reveal_strlit(": ");
                assert(": "@ =~= seq![':', ' ']);
                assert(line@ == dec_rep(i as nat) + seq![':', ' '] + self@[i as int]);
            }
            let ghost prev = out.deep_view();
            out.push(line);
            proof {
                assert(out.deep_view() =~= prev.push(line@));
                assert(out.deep_view() =~= spec_history_lines(self@).take(i + 1));
            }
            i = i + 1;
        }
        proof {
            assert(spec_history_lines(self@).take(n as int) =~= spec_history_lines(self@));
        }
        out
    }
}

/// The history reached by making every push in `pushes`, oldest first,
/// starting from an empty history of capacity `cap`.
pub open spec fn spec_push_all(cap: int, pushes: Seq<Seq<char>>) -> Seq<Seq<char>>
    decreases pushes.len(),
{
    if pushes.len() == 0 {
        Seq::empty()
    } else {
        spec_push(spec_push_all(cap, pushes.drop_last()), cap, pushes.last())
    }
}

/// The FIFO law of the history buffer: after any sequence of pushes into a
/// history of capacity `cap`, the buffer never exceeds `cap` entries, and it
/// holds exactly the most recent pushes, in push order — so every surviving
/// entry is more recent than every entry evicted before it.
pub proof fn lemma_history_fifo(cap: int, pushes: Seq<Seq<char>>)
    requires
        1 <= cap,
    ensures
        spec_push_all(cap, pushes).len() <= cap,
        spec_push_all(cap, pushes) == if pushes.len() <= cap {
            pushes
        } else {
            pushes.skip(pushes.len() - cap)
        },
    decreases pushes.len(),
{
    if pushes.len() == 0 {
        assert(spec_push_all(cap, pushes) =~= pushes);
    } else {
        let prev = pushes.drop_last();
        lemma_history_fifo(cap, prev);
        if prev.len() < cap {
            assert(spec_push_all(cap, pushes) =~= pushes);
        } else if prev.len() == cap {
            assert(spec_push_all(cap, pushes) =~= pushes.skip(pushes.len() - cap));
        } else {
            assert(prev.skip(prev.len() - cap).drop_first().push(pushes.last()) =~= pushes.skip(
                pushes.len() - cap,
            ));
        }
    }
}

} // verus!
