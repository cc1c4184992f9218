//! A window on the characters read last: a ring of fixed capacity.

use vstd::prelude::*;

verus! {

/// The last `n` items of `s`, or all of `s` where it has no more than `n`.
pub open spec fn keep_last(s: Seq<char>, n: nat) -> Seq<char> {
    if s.len() <= n {
        s
    } else {
        s.subrange(s.len() - n, s.len() as int)
    }
}

/// Where the ring writes next, and how many of its slots hold a character.
#[derive(Clone, Copy)]
struct Mark {
    next: usize,
    filled: usize,
}

/// A ring of characters. It holds the characters inserted last, as many as
/// its capacity allows; a further one takes the place of the oldest.
pub struct Ring {
    slots: Vec<char>,
    mark: Mark,
}

impl View for Ring {
    type V = Seq<char>;

    /// The characters in the ring, the oldest first.
    closed spec fn view(&self) -> Seq<char> {
        if self.mark.filled < self.slots.len() {
            self.slots@.take(self.mark.filled as int)
        } else {
            self.slots@.subrange(self.mark.next as int, self.slots.len() as int)
                + self.slots@.take(self.mark.next as int)
        }
    }
}

impl Ring {
    #[verifier::type_invariant]
    spec fn inv(self) -> bool {
        &&& self.mark.filled <= self.slots.len()
        &&& self.mark.next <= self.slots.len()
        &&& self.mark.filled < self.slots.len() ==> self.mark.next == self.mark.filled
        &&& self.mark.filled == self.slots.len() && self.slots.len() > 0 ==> self.mark.next
            < self.slots.len()
    }

    /// How many characters the ring can hold.
    pub closed spec fn capacity(&self) -> nat {
        self.slots.len() as nat
    }

    /// An empty ring that can hold `capacity` characters.
    pub fn new(capacity: usize) -> (ring: Ring)
        ensures
            ring@ == Seq::<char>::empty(),
            ring.capacity() == capacity,
    {
        let mut slots: Vec<char> = Vec::new();
        while slots.len() < capacity
            invariant
                slots.len() <= capacity,
            decreases capacity - slots.len(),
        {
            slots.push('\0');
        }
        Ring { slots, mark: Mark { next: 0, filled: 0 } }
    }

    /// Puts `c` into the ring as its newest character. Where the ring is
    /// full, its oldest character leaves.
    pub fn insert(&mut self, c: char)
        ensures
            final(self).capacity() == old(self).capacity(),
            final(self)@ == keep_last(old(self)@.push(c), old(self).capacity()),
    {
        proof {
            use_type_invariant(&*self);
        }
        let capacity = self.slots.len();
        if capacity == 0 {
            return ;
        }
        let Mark { next, filled } = self.mark;
        let ghost before = self.slots@;
        self.slots[next] = c;
        let after_next = if next + 1 == capacity {
            0
        } else {
            next + 1
        };
        let after_filled = if filled < capacity {
            filled + 1
        } else {
            filled
        };
        self.mark = Mark { next: after_next, filled: after_filled };
        proof {
            let window = keep_last(old(self)@.push(c), capacity as nat);
            assert(self@ =~= window);
        }
    }

    /// The characters in the ring, the oldest first.
    pub fn unroll(&self) -> (chars: Vec<char>)
        ensures
            chars@ == self@,
    {
        proof {
            use_type_invariant(self);
        }
        let mut chars: Vec<char> = Vec::new();
        if self.mark.filled < self.slots.len() {
            let mut i: usize = 0;
            while i < self.mark.filled
                invariant
                    i <= self.mark.filled < self.slots.len(),
                    chars@ == self.slots@.take(i as int),
                decreases self.mark.filled - i,
            {
                chars.push(self.slots[i]);
                i += 1;
            }
        } else {
            let mut i: usize = self.mark.next;
            while i < self.slots.len()
                invariant
                    self.mark.next <= i <= self.slots.len(),
                    chars@ == self.slots@.subrange(self.mark.next as int, i as int),
                decreases self.slots.len() - i,
            {
                chars.push(self.slots[i]);
                i += 1;
            }
            let mut j: usize = 0;
            while j < self.mark.next
                invariant
                    j <= self.mark.next <= self.slots.len(),
                    chars@ == self.slots@.subrange(self.mark.next as int, self.slots.len() as int)
                        + self.slots@.take(j as int),
                decreases self.mark.next - j,
            {
                chars.push(self.slots[j]);
                j += 1;
            }
        }
        chars
    }

    /// Tells whether the ring holds exactly the characters of `target`, the
    /// oldest first.
    pub fn holds(&self, target: &Vec<char>) -> (r: bool)
        ensures
            r == (self@ == target@),
    {
        let chars = self.unroll();
        if chars.len() != target.len() {
            return false;
        }
        let mut i: usize = 0;
        while i < chars.len()
            invariant
                i <= chars.len() == target.len(),
                chars@ == self@,
                forall|k: int| 0 <= k < i ==> chars@[k] == target@[k],
            decreases chars.len() - i,
        {
            if chars[i] != target[i] {
                assert(chars@[i as int] != target@[i as int]);
                return false;
            }
            i += 1;
        }
        assert(chars@ =~= target@);
        true
    }
}

} // verus!
