//! The rolling receive buffer: a fixed-capacity, order-preserving
//! byte sequence, owned exclusively by the receiver. Appended to by
//! reads, truncated by sync search or frame removal; its length never
//! exceeds its static capacity.

use vstd::prelude::*;

verus! {

/// The index of the first occurrence of `b` in `s`, if any.
pub open spec fn find_first(s: Seq<u8>, b: u8) -> Option<nat>
    decreases s.len(),
{
    if s.len() == 0 {
        None
    } else if s[0] == b {
        Some(0)
    } else {
        match find_first(s.skip(1), b) {
            Some(i) => Some(i + 1),
            None => None,
        }
    }
}

/// `find_first` names the first occurrence: the byte stands there, and
/// nowhere earlier; `None` means the byte does not occur at all.
pub proof fn lemma_find_first(s: Seq<u8>, b: u8)
    ensures
        match find_first(s, b) {
            Some(i) => i < s.len() && s[i as int] == b && forall|j: int|
                0 <= j < i ==> s[j] != b,
            None => forall|j: int| 0 <= j < s.len() ==> s[j] != b,
        },
    decreases s.len(),
{
    if s.len() == 0 {
    } else if s[0] == b {
    } else {
        lemma_find_first(s.skip(1), b);
        assert forall|j: int| 1 <= j < s.len() implies s[j] == s.skip(1)[j - 1] by {}
    }
}

/// A byte buffer whose length may grow only up to a capacity fixed at
/// construction.
pub struct RollingBuffer {
    data: Vec<u8>,
    cap: usize,
}

impl View for RollingBuffer {
    type V = Seq<u8>;

    closed spec fn view(&self) -> Seq<u8> {
        self.data@
    }
}

impl RollingBuffer {
    /// The fixed capacity.
    pub closed spec fn cap_spec(&self) -> nat {
        self.cap as nat
    }

    /// The content never exceeds the capacity.
    pub closed spec fn inv(&self) -> bool {
        self.data@.len() <= self.cap
    }

    /// A well-formed buffer's length is bounded by its capacity.
    pub proof fn lemma_inv_len(&self)
        requires
            self.inv(),
        ensures
            self@.len() <= self.cap_spec(),
    {
    }

    /// Creates an empty buffer with the given capacity.
    pub fn new(capacity: usize) -> (r: RollingBuffer)
        ensures
            r.inv(),
            r@ == Seq::<u8>::empty(),
            r.cap_spec() == capacity,
    {
        RollingBuffer { data: Vec::new(), cap: capacity }
    }

    /// Number of bytes currently held.
    pub fn len(&self) -> (n: usize)
        ensures
            n == self@.len(),
    {
        self.data.len()
    }

    /// The fixed capacity.
    pub fn capacity(&self) -> (n: usize)
        ensures
            n == self.cap_spec(),
    {
        self.cap
    }

    /// The current contents.
    pub fn as_slice(&self) -> (s: &[u8])
        ensures
            s@ == self@,
    {
        self.data.as_slice()
    }

    /// Empties the buffer.
    pub fn clear(&mut self)
        ensures
            final(self).inv(),
            final(self)@ == Seq::<u8>::empty(),
            final(self).cap_spec() == old(self).cap_spec(),
    {
        self.data.clear();
    }

    /// Appends one byte.
    pub fn push_byte(&mut self, b: u8)
        requires
            old(self).inv(),
            old(self)@.len() < old(self).cap_spec(),
        ensures
            final(self).inv(),
            final(self)@ == old(self)@.push(b),
            final(self).cap_spec() == old(self).cap_spec(),
    {
        self.data.push(b);
    }

    /// Appends a whole slice.
    pub fn extend_from_slice(&mut self, s: &[u8])
        requires
            old(self).inv(),
            old(self)@.len() + s@.len() <= old(self).cap_spec(),
        ensures
            final(self).inv(),
            final(self)@ == old(self)@ + s@,
            final(self).cap_spec() == old(self).cap_spec(),
    {
        self.data.extend_from_slice(s);
    }

    /// Discards the first `n` bytes, shifting the remainder to the
    /// front and preserving its order.
    pub fn remove_leading(&mut self, n: usize)
        requires
            old(self).inv(),
            n <= old(self)@.len(),
        ensures
            final(self).inv(),
            final(self)@ == old(self)@.skip(n as int),
            final(self).cap_spec() == old(self).cap_spec(),
    {
        let len = self.data.len();
        let mut out: Vec<u8> = Vec::new();
        let mut i: usize = n;
        while i < len
            invariant
                n <= i <= len,
                len == self.data@.len(),
                self.data@ == old(self)@,
                out@ == old(self)@.subrange(n as int, i as int),
            decreases len - i,
        {
            proof {
                assert(old(self)@.subrange(n as int, i + 1) =~= old(self)@.subrange(
                    n as int,
                    i as int,
                ).push(old(self)@[i as int]));
            }
            out.push(self.data[i]);
            i = i + 1;
        }
        proof {
            assert(old(self)@.subrange(n as int, len as int) =~= old(self)@.skip(n as int));
        }
        self.data = out;
    }

    /// The position of the first occurrence of `b`, if it occurs.
    pub fn find_byte(&self, b: u8) -> (r: Option<usize>)
        ensures
            match find_first(self@, b) {
                Some(i) => r matches Some(j) && j == i,
                None => r is None,
            },
    {
        proof {
            lemma_find_first(self@, b);
        }
        let len = self.data.len();
        let mut i: usize = 0;
        while i < len
            invariant
                i <= len,
                len == self@.len(),
                self@ == self.data@,
                forall|j: int| 0 <= j < i ==> self@[j] != b,
            decreases len - i,
        {
            if self.data[i] == b {
                proof {
                    lemma_find_first_converse(self@, b, i as nat);
                }
                return Some(i);
            }
            i = i + 1;
        }
        proof {
            if find_first(self@, b) is Some {
                lemma_find_first(self@, b);
            }
        }
        None
    }
}

/// If `b` stands at `i` and nowhere earlier, `find_first` returns `i`.
pub proof fn lemma_find_first_converse(s: Seq<u8>, b: u8, i: nat)
    requires
        i < s.len(),
        s[i as int] == b,
        forall|j: int| 0 <= j < i ==> s[j] != b,
    ensures
        find_first(s, b) == Some(i),
    decreases i,
{
    if i == 0 {
    } else {
        assert(s[0] != b);
        assert forall|j: int| 0 <= j < i - 1 implies s.skip(1)[j] != b by {
            assert(s.skip(1)[j] == s[j + 1]);
        }
        assert(s.skip(1)[i - 1] == s[i as int]);
        lemma_find_first_converse(s.skip(1), b, (i - 1) as nat);
    }
}

} // verus!
