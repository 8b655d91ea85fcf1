//! CRC-16 over byte sequences, in the reflected form with polynomial
//! `0xA001` and initial value `0xFFFF`, offered both as a one-shot
//! computation over a complete slice and as a streaming context fed
//! chunk by chunk.

use vstd::prelude::*;

verus! {

/// Initial shift-register value of the CRC-16 computation.
pub const CRC16_INIT: u16 = 0xffff;

/// One shift-and-conditionally-xor round of the CRC-16 shift register.
pub open spec fn crc16_round(s: u16) -> u16 {
    if s & 1 == 1 {
        (s >> 1) ^ 0xa001
    } else {
        s >> 1
    }
}

/// `crc16_round` applied `n` times.
pub open spec fn crc16_rounds(s: u16, n: nat) -> u16
    decreases n,
{
    if n == 0 {
        s
    } else {
        crc16_round(crc16_rounds(s, (n - 1) as nat))
    }
}

/// Folding one input byte into the shift register: xor it in, then
/// run eight rounds.
pub open spec fn crc16_step(s: u16, b: u8) -> u16 {
    crc16_rounds(s ^ (b as u16), 8)
}

/// Folding a whole byte sequence into the shift register, front to back.
pub open spec fn crc16_fold(s: u16, bytes: Seq<u8>) -> u16
    decreases bytes.len(),
{
    if bytes.len() == 0 {
        s
    } else {
        crc16_fold(crc16_step(s, bytes[0]), bytes.skip(1))
    }
}

/// The CRC-16 of a byte sequence.
pub open spec fn spec_crc16(bytes: Seq<u8>) -> u16 {
    crc16_fold(CRC16_INIT, bytes)
}

/// Folding is compatible with appending one byte at the end.
pub proof fn lemma_crc16_fold_push(s: u16, bytes: Seq<u8>, b: u8)
    ensures
        crc16_fold(s, bytes.push(b)) == crc16_step(crc16_fold(s, bytes), b),
    decreases bytes.len(),
{
    if bytes.len() == 0 {
        assert(bytes.push(b)[0] == b);
        assert(bytes.push(b).skip(1) =~= Seq::<u8>::empty());
        assert(crc16_fold(s, bytes.push(b)) == crc16_fold(crc16_step(s, b), Seq::<u8>::empty()));
    } else {
        assert(bytes.push(b)[0] == bytes[0]);
        assert(bytes.push(b).skip(1) =~= bytes.skip(1).push(b));
        assert(crc16_fold(s, bytes.push(b)) == crc16_fold(
            crc16_step(s, bytes[0]),
            bytes.skip(1).push(b),
        ));
        lemma_crc16_fold_push(crc16_step(s, bytes[0]), bytes.skip(1), b);
        assert(crc16_fold(s, bytes) == crc16_fold(crc16_step(s, bytes[0]), bytes.skip(1)));
    }
}

/// A round of the shift register is injective: distinct states stay
/// distinct.
pub proof fn lemma_crc16_round_injective(s1: u16, s2: u16)
    requires
        s1 != s2,
    ensures
        crc16_round(s1) != crc16_round(s2),
{
    if s1 & 1 == 1 && s2 & 1 == 1 {
        assert(s1 != s2 && s1 & 1 == 1 && s2 & 1 == 1 ==> ((s1 >> 1) ^ 0xa001) != ((s2 >> 1)
            ^ 0xa001)) by (bit_vector);
    } else if s1 & 1 != 1 && s2 & 1 != 1 {
        assert(s1 != s2 && s1 & 1 != 1 && s2 & 1 != 1 ==> (s1 >> 1) != (s2 >> 1)) by (bit_vector);
    } else if s1 & 1 == 1 {
        assert(((s1 >> 1) ^ 0xa001) != (s2 >> 1)) by (bit_vector);
    } else {
        assert((s1 >> 1) != ((s2 >> 1) ^ 0xa001)) by (bit_vector);
    }
}

/// Iterated rounds are injective.
pub proof fn lemma_crc16_rounds_injective(s1: u16, s2: u16, n: nat)
    requires
        s1 != s2,
    ensures
        crc16_rounds(s1, n) != crc16_rounds(s2, n),
    decreases n,
{
    if n > 0 {
        lemma_crc16_rounds_injective(s1, s2, (n - 1) as nat);
        lemma_crc16_round_injective(crc16_rounds(s1, (n - 1) as nat), crc16_rounds(
            s2,
            (n - 1) as nat,
        ));
    }
}

/// Folding one byte is injective in the state.
pub proof fn lemma_crc16_step_state_injective(s1: u16, s2: u16, b: u8)
    requires
        s1 != s2,
    ensures
        crc16_step(s1, b) != crc16_step(s2, b),
{
    assert(s1 != s2 ==> (s1 ^ (b as u16)) != (s2 ^ (b as u16))) by (bit_vector);
    lemma_crc16_rounds_injective(s1 ^ (b as u16), s2 ^ (b as u16), 8);
}

/// Folding distinct bytes into one state yields distinct states.
pub proof fn lemma_crc16_step_byte_injective(s: u16, b1: u8, b2: u8)
    requires
        b1 != b2,
    ensures
        crc16_step(s, b1) != crc16_step(s, b2),
{
    assert(b1 != b2 ==> (s ^ (b1 as u16)) != (s ^ (b2 as u16))) by (bit_vector);
    lemma_crc16_rounds_injective(s ^ (b1 as u16), s ^ (b2 as u16), 8);
}

/// Folding a byte sequence is injective in the starting state.
pub proof fn lemma_crc16_fold_state_injective(s1: u16, s2: u16, bytes: Seq<u8>)
    requires
        s1 != s2,
    ensures
        crc16_fold(s1, bytes) != crc16_fold(s2, bytes),
    decreases bytes.len(),
{
    if bytes.len() > 0 {
        lemma_crc16_step_state_injective(s1, s2, bytes[0]);
        lemma_crc16_fold_state_injective(
            crc16_step(s1, bytes[0]),
            crc16_step(s2, bytes[0]),
            bytes.skip(1),
        );
    }
}

/// Folding a concatenation folds the parts in order.
pub proof fn lemma_crc16_fold_concat(s: u16, a: Seq<u8>, b: Seq<u8>)
    ensures
        crc16_fold(s, a + b) == crc16_fold(crc16_fold(s, a), b),
    decreases a.len(),
{
    if a.len() == 0 {
        assert(a + b =~= b);
    } else {
        assert((a + b)[0] == a[0]);
        assert((a + b).skip(1) =~= a.skip(1) + b);
        lemma_crc16_fold_concat(crc16_step(s, a[0]), a.skip(1), b);
    }
}

/// Changing any single byte of a sequence changes its CRC-16: the
/// corrupted sequence can never carry the original's checksum.
pub proof fn lemma_crc16_detects_byte_change(bytes: Seq<u8>, i: int, b: u8)
    requires
        0 <= i < bytes.len(),
        b != bytes[i],
    ensures
        spec_crc16(bytes.update(i, b)) != spec_crc16(bytes),
{
    let tampered = bytes.update(i, b);
    let prefix = bytes.take(i);
    let suffix = bytes.skip(i + 1);
    assert(bytes =~= prefix + seq![bytes[i]] + suffix);
    assert(tampered =~= prefix + seq![b] + suffix);

    let s0 = crc16_fold(CRC16_INIT, prefix);
    lemma_crc16_fold_concat(CRC16_INIT, prefix, seq![bytes[i]] + suffix);
    lemma_crc16_fold_concat(CRC16_INIT, prefix, seq![b] + suffix);
    lemma_crc16_fold_concat(s0, seq![bytes[i]], suffix);
    lemma_crc16_fold_concat(s0, seq![b], suffix);
    assert(seq![bytes[i]][0] == bytes[i] && seq![bytes[i]].skip(1) =~= Seq::<u8>::empty());
    assert(seq![b][0] == b && seq![b].skip(1) =~= Seq::<u8>::empty());
    assert(crc16_fold(s0, seq![bytes[i]]) == crc16_fold(
        crc16_step(s0, bytes[i]),
        Seq::<u8>::empty(),
    ));
    assert(crc16_fold(s0, seq![b]) == crc16_fold(crc16_step(s0, b), Seq::<u8>::empty()));
    assert(crc16_fold(s0, seq![bytes[i]]) == crc16_step(s0, bytes[i]));
    assert(crc16_fold(s0, seq![b]) == crc16_step(s0, b));
    lemma_crc16_step_byte_injective(s0, bytes[i], b);
    lemma_crc16_fold_state_injective(crc16_step(s0, bytes[i]), crc16_step(s0, b), suffix);
    assert(prefix + (seq![bytes[i]] + suffix) =~= prefix + seq![bytes[i]] + suffix);
    assert(prefix + (seq![b] + suffix) =~= prefix + seq![b] + suffix);
}

/// One exec round of the shift register.
fn round(s: u16) -> (r: u16)
    ensures
        r == crc16_round(s),
{
    if s & 1 == 1 {
        (s >> 1) ^ 0xa001
    } else {
        s >> 1
    }
}

/// Folds one byte into the shift register.
fn step(s: u16, b: u8) -> (r: u16)
    ensures
        r == crc16_step(s, b),
{
    let mut acc: u16 = s ^ (b as u16);
    let mut i: usize = 0;
    while i < 8
        invariant
            i <= 8,
            acc == crc16_rounds(s ^ (b as u16), i as nat),
        decreases 8 - i,
    {
        acc = round(acc);
        i = i + 1;
    }
    acc
}

/// Computes the CRC-16 of a complete byte slice in one call.
pub fn crc16(data: &[u8]) -> (r: u16)
    ensures
        r == spec_crc16(data@),
{
    let mut acc: u16 = CRC16_INIT;
    let mut i: usize = 0;
    while i < data.len()
        invariant
            i <= data@.len(),
            acc == crc16_fold(CRC16_INIT, data@.take(i as int)),
        decreases data@.len() - i,
    {
        proof {
            assert(data@.take(i + 1) =~= data@.take(i as int).push(data@[i as int]));
            lemma_crc16_fold_push(CRC16_INIT, data@.take(i as int), data@[i as int]);
        }
        acc = step(acc, data[i]);
        i = i + 1;
    }
    proof {
        assert(data@.take(data@.len() as int) =~= data@);
    }
    acc
}

/// An open streaming CRC-16 computation over a sequence of byte
/// chunks fed incrementally, finalized once to a 16-bit value.
pub struct Stream {
    state: u16,
    fed: Ghost<Seq<u8>>,
}

impl Stream {
    /// The bytes fed into this computation so far.
    pub closed spec fn fed(&self) -> Seq<u8> {
        self.fed@
    }

    /// The shift register holds the fold of everything fed so far.
    pub closed spec fn inv(&self) -> bool {
        self.state == crc16_fold(CRC16_INIT, self.fed@)
    }

    /// Opens a fresh streaming computation.
    pub fn new() -> (r: Stream)
        ensures
            r.inv(),
            r.fed() == Seq::<u8>::empty(),
    {
        Stream { state: CRC16_INIT, fed: Ghost(Seq::empty()) }
    }

    /// Feeds one chunk into the open computation.
    pub fn feed_bytes(&mut self, data: &[u8])
        requires
            old(self).inv(),
        ensures
            final(self).inv(),
            final(self).fed() == old(self).fed() + data@,
    {
        let mut i: usize = 0;
        while i < data.len()
            invariant
                i <= data@.len(),
                self.inv(),
                self.fed() == old(self).fed() + data@.take(i as int),
            decreases data@.len() - i,
        {
            proof {
                lemma_crc16_fold_push(CRC16_INIT, self.fed@, data@[i as int]);
            }
            self.state = step(self.state, data[i]);
            proof {
                self.fed@ = self.fed@.push(data@[i as int]);
                assert(old(self).fed() + data@.take(i + 1) =~= (old(self).fed()
                    + data@.take(i as int)).push(data@[i as int]));
            }
            i = i + 1;
        }
        proof {
            assert(old(self).fed() + data@.take(data@.len() as int) =~= old(self).fed() + data@);
        }
    }

    /// Finalizes the computation to the CRC-16 of everything fed.
    pub fn result(&self) -> (r: u16)
        requires
            self.inv(),
        ensures
            r == spec_crc16(self.fed()),
    {
        self.state
    }
}

} // verus!
