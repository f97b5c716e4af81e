//! A bounded tail of log lines: the most recently read lines, in read
//! order, with the oldest evicted once the bound is exceeded.
use vstd::prelude::*;

verus! {

/// How many lines the tail keeps by default.
pub const DEFAULT_TAIL_LEN: usize = 10;

/// One push onto a bounded tail: append the line, then drop the oldest
/// entry if the bound is now exceeded.
pub open spec fn tail_push(tail: Seq<Seq<char>>, line: Seq<char>, cap: nat) -> Seq<Seq<char>> {
    let t = tail.push(line);
    if t.len() <= cap {
        t
    } else {
        t.subrange(1, t.len() as int)
    }
}

/// The tail that remains after reading `lines` in order: all of them
/// when they fit the bound, else exactly the last `cap`.
pub open spec fn tail_of(lines: Seq<Seq<char>>, cap: nat) -> Seq<Seq<char>> {
    if lines.len() <= cap {
        lines
    } else {
        lines.subrange(lines.len() - cap, lines.len() as int)
    }
}

/// The bounded tail itself: the retained lines and the bound.
pub struct LogTail {
    lines: Vec<String>,
    capacity: usize,
}

impl View for LogTail {
    type V = Seq<Seq<char>>;

    closed spec fn view(&self) -> Seq<Seq<char>> {
        self.lines.deep_view()
    }
}

impl LogTail {
    /// The bound: how many lines the tail retains at most.
    pub closed spec fn cap(&self) -> nat {
        self.capacity as nat
    }

    /// A tail is well formed when its bound is positive and respected.
    pub open spec fn well_formed(&self) -> bool {
        1 <= self.cap() && self@.len() <= self.cap()
    }

    /// An empty tail with the given bound.
    pub fn new(capacity: usize) -> (r: LogTail)
        requires
            capacity >= 1,
        ensures
            r@ =~= Seq::<Seq<char>>::empty(),
            r.cap() == capacity,
            r.well_formed(),
    {
        LogTail { lines: Vec::new(), capacity }
    }

    /// An empty tail bounded to `DEFAULT_TAIL_LEN` lines.
    pub fn with_default_capacity() -> (r: LogTail)
        ensures
            r@ =~= Seq::<Seq<char>>::empty(),
            r.cap() == DEFAULT_TAIL_LEN,
            r.well_formed(),
    {
        LogTail::new(DEFAULT_TAIL_LEN)
    }

    /// How many lines the tail holds now.
    pub fn len(&self) -> (r: usize)
        ensures
            r == self@.len(),
    {
        self.lines.len()
    }

    /// The retained lines, oldest first.
    pub fn lines(&self) -> (r: &Vec<String>)
        ensures
            r.deep_view() == self@,
    {
        &self.lines
    }

    /// Append one line, evicting the oldest when the bound is exceeded.
    pub fn push(&mut self, line: String)
        requires
            old(self).well_formed(),
        ensures
            final(self).well_formed(),
            final(self).cap() == old(self).cap(),
            final(self)@ =~= tail_push(old(self)@, line@, old(self).cap()),
    {
        self.lines.push(line);
        if self.lines.len() > self.capacity {
            self.lines.remove(0);
            proof {
                assert(self.lines.deep_view() =~= old(self).lines.deep_view().push(
                    line@,
                ).subrange(1, old(self)@.len() as int + 1));
            }
        }
    }

    /// Build the tail of a whole sequence of lines by pushing each in
    /// turn: the result retains exactly the last `capacity` of them
    /// (all of them, when fewer).
    pub fn from_lines(lines: &Vec<String>, capacity: usize) -> (r: LogTail)
        requires
            capacity >= 1,
        ensures
            r.cap() == capacity,
            r.well_formed(),
            r@ =~= tail_of(lines.deep_view(), capacity as nat),
    {
        let ghost all = lines.deep_view();
        let mut t = LogTail::new(capacity);
        let n = lines.len();
        let mut i: usize = 0;
        while i < n
            invariant
                n == lines.len(),
                i <= n,
                all == lines.deep_view(),
                all.len() == n,
                t.cap() == capacity,
                capacity >= 1,
                t.well_formed(),
                t@ =~= tail_of(all.take(i as int), capacity as nat),
            decreases n - i,
        {
            proof {
                lemma_tail_of_step(all, i as int, capacity as nat);
                assert(lines.deep_view()[i as int] == lines[i as int]@);
            }
            t.push(lines[i].clone());
            i += 1;
        }
        proof {
            assert(all.take(n as int) =~= all);
        }
        t
    }
}

/// Extending the input by one line pushes that line onto its tail.
proof fn lemma_tail_of_step(lines: Seq<Seq<char>>, i: int, cap: nat)
    requires
        0 <= i < lines.len(),
        cap >= 1,
    ensures
        tail_of(lines.take(i + 1), cap) =~= tail_push(
            tail_of(lines.take(i), cap),
            lines[i],
            cap,
        ),
{
}

/// With more lines than the bound, the tail is exactly the last `cap`
/// lines, in their original order.
pub proof fn lemma_bounded_tail(lines: Seq<Seq<char>>, cap: nat)
    requires
        cap >= 1,
        lines.len() > cap,
    ensures
        tail_of(lines, cap).len() == cap,
        forall|i: int|
            0 <= i < cap ==> tail_of(lines, cap)[i] == lines[lines.len() - cap + i],
{
}

} // verus!
