//! The sfc32 engine: 128-bit state, 32-bit output words.

use vstd::arithmetic::div_mod::lemma_fundamental_div_mod_converse;
use vstd::bytes::lemma_auto_spec_u32_to_from_le_bytes;
use vstd::bytes::spec_u32_from_le_bytes;
use vstd::bytes::spec_u32_to_le_bytes;
use vstd::bytes::u32_from_le_bytes;
use vstd::bytes::u32_to_le_bytes;
use vstd::prelude::*;
use vstd::slice::slice_subrange;
use vstd::wrapping::u32_specs;

use crate::entropy;
use crate::error::SfcError;
use crate::pcg;
use crate::words::high_u32;
use crate::words::low_u32;
use crate::words::pair_u64;

verus! {

/// The four state words of an sfc32 engine: the mathematical model that all
/// contracts in this module speak of.
pub struct Sfc32State {
    pub a: u32,
    pub b: u32,
    pub c: u32,
    pub counter: u32,
}

/// `x` rotated left by `r` bits.
pub open spec fn rotl32(x: u32, r: u32) -> u32
    recommends
        0 < r < 32,
{
    (x << r) | (x >> ((32 - r) as u32))
}

/// The state freshly loaded with three raw seed words, before any warm-up:
/// the counter starts at 1.
pub open spec fn init32(a: u32, b: u32, c: u32) -> Sfc32State {
    Sfc32State { a: a, b: b, c: c, counter: 1u32 }
}

/// The word that one round emits from state `s`: the wrapping sum
/// `a + b + counter`.
pub open spec fn out32(s: Sfc32State) -> u32 {
    u32_specs::wrapping_add(u32_specs::wrapping_add(s.a, s.b), s.counter)
}

/// One round of the sfc32 state transition, with the fixed constants
/// rotation 21, right shift 9, left shift 3. The counter increments after
/// the output word is formed; all additions wrap.
pub open spec fn step32(s: Sfc32State) -> Sfc32State {
    Sfc32State {
        a: s.b ^ (s.b >> 9),
        b: u32_specs::wrapping_add(s.c, s.c << 3),
        c: u32_specs::wrapping_add(rotl32(s.c, 21), out32(s)),
        counter: u32_specs::wrapping_add(s.counter, 1),
    }
}

/// The state after `n` rounds from `s`.
pub open spec fn advance32(s: Sfc32State, n: nat) -> Sfc32State
    decreases n,
{
    if n == 0 {
        s
    } else {
        advance32(step32(s), (n - 1) as nat)
    }
}

/// The next `n` output words from state `s`.
pub open spec fn stream32(s: Sfc32State, n: nat) -> Seq<u32>
    decreases n,
{
    if n == 0 {
        Seq::<u32>::empty()
    } else {
        seq![out32(s)] + stream32(step32(s), (n - 1) as nat)
    }
}

/// The first `n` bytes of the byte stream from state `s`: each round's
/// word serialized in little-endian order, a final partial word
/// contributing only its low-order bytes (still computed as a full round).
pub open spec fn byte_stream32(s: Sfc32State, n: nat) -> Seq<u8>
    decreases n,
{
    if n == 0 {
        Seq::<u8>::empty()
    } else if n < 4 {
        spec_u32_to_le_bytes(out32(s)).take(n as int)
    } else {
        spec_u32_to_le_bytes(out32(s)) + byte_stream32(step32(s), (n - 4) as nat)
    }
}

/// How many rounds filling `n` bytes consumes: one per word started.
pub open spec fn words_for32(n: nat) -> nat {
    if n % 4 == 0 {
        n / 4
    } else {
        n / 4 + 1
    }
}

/// The little-endian concatenation of a sequence of 32-bit words.
pub open spec fn words_to_bytes32(ws: Seq<u32>) -> Seq<u8>
    decreases ws.len(),
{
    if ws.len() == 0 {
        Seq::<u8>::empty()
    } else {
        spec_u32_to_le_bytes(ws.first()) + words_to_bytes32(ws.drop_first())
    }
}

/// The flat persistence encoding of a state: the four words `a`, `b`, `c`,
/// `counter` in that order, each little-endian.
pub open spec fn state_bytes32(s: Sfc32State) -> Seq<u8> {
    spec_u32_to_le_bytes(s.a) + spec_u32_to_le_bytes(s.b) + spec_u32_to_le_bytes(s.c)
        + spec_u32_to_le_bytes(s.counter)
}

/// The state held in a 16-byte persistence payload.
pub open spec fn parse_state32(b: Seq<u8>) -> Sfc32State
    recommends
        b.len() == 16,
{
    Sfc32State {
        a: spec_u32_from_le_bytes(b.subrange(0, 4)),
        b: spec_u32_from_le_bytes(b.subrange(4, 8)),
        c: spec_u32_from_le_bytes(b.subrange(8, 12)),
        counter: spec_u32_from_le_bytes(b.subrange(12, 16)),
    }
}

/// The state that the byte seeding path reaches from a 12-byte block:
/// three little-endian words, then the 15-round default warm-up.
pub open spec fn seeded32(seed: Seq<u8>) -> Sfc32State
    recommends
        seed.len() == 12,
{
    advance32(
        init32(
            spec_u32_from_le_bytes(seed.subrange(0, 4)),
            spec_u32_from_le_bytes(seed.subrange(4, 8)),
            spec_u32_from_le_bytes(seed.subrange(8, 12)),
        ),
        15,
    )
}

/// The warm-up round count that a seeding path runs: the caller's override
/// if one was given, else the path's default.
pub open spec fn rounds_or(rounds: Option<u32>, default: u32) -> nat {
    match rounds {
        Some(k) => k as nat,
        None => default as nat,
    }
}

/// Advancing one round more is one more step: `advance32` peels rounds from
/// the front, this lemma peels them from the back.
pub proof fn lemma_advance32_snoc(s: Sfc32State, n: nat)
    ensures
        advance32(s, n + 1) == step32(advance32(s, n)),
    decreases n,
{
    if n == 0 {
        assert(advance32(s, 1) == advance32(step32(s), 0));
    } else {
        lemma_advance32_snoc(step32(s), (n - 1) as nat);
        assert(advance32(s, n + 1) == advance32(step32(s), n));
        assert(advance32(s, n) == advance32(step32(s), (n - 1) as nat));
    }
}

/// Byte/word consistency: a fill of `4·n` bytes is exactly the
/// little-endian concatenation of the next `n` native words.
pub proof fn lemma_byte_stream_is_word_stream32(s: Sfc32State, n: nat)
    ensures
        byte_stream32(s, 4 * n) == words_to_bytes32(stream32(s, n)),
    decreases n,
{
    if n == 0 {
        assert(byte_stream32(s, 0) == Seq::<u8>::empty());
        assert(words_to_bytes32(stream32(s, 0)) == Seq::<u8>::empty());
    } else {
        lemma_byte_stream_is_word_stream32(step32(s), (n - 1) as nat);
        let ws = stream32(s, n);
        assert(ws == seq![out32(s)] + stream32(step32(s), (n - 1) as nat));
        assert(ws.first() == out32(s));
        assert(ws.drop_first() =~= stream32(step32(s), (n - 1) as nat));
        assert(words_to_bytes32(ws) == spec_u32_to_le_bytes(out32(s)) + words_to_bytes32(
            ws.drop_first(),
        ));
        assert(byte_stream32(s, 4 * n) == spec_u32_to_le_bytes(out32(s)) + byte_stream32(
            step32(s),
            (4 * n - 4) as nat,
        ));
        assert((4 * n - 4) as nat == 4 * ((n - 1) as nat));
    }
}

/// Chunked fills compose: filling `4·k` bytes and then `m` more bytes from
/// the advanced state equals one fill of `4·k + m` bytes from the original
/// state, so a buffer filled in word-sized chunks matches one filled in a
/// single call.
pub proof fn lemma_fill_chunks32(s: Sfc32State, k: nat, m: nat)
    ensures
        byte_stream32(s, 4 * k) + byte_stream32(advance32(s, k), m) == byte_stream32(
            s,
            4 * k + m,
        ),
    decreases k,
{
    if k == 0 {
        assert(byte_stream32(s, 0) + byte_stream32(s, m) =~= byte_stream32(s, m));
    } else {
        lemma_fill_chunks32(step32(s), (k - 1) as nat, m);
        let w = spec_u32_to_le_bytes(out32(s));
        assert(byte_stream32(s, 4 * k) == w + byte_stream32(step32(s), (4 * k - 4) as nat));
        assert((4 * k - 4) as nat == 4 * ((k - 1) as nat));
        assert(advance32(s, k) == advance32(step32(s), (k - 1) as nat));
        assert(byte_stream32(s, 4 * k + m) == w + byte_stream32(
            step32(s),
            (4 * k + m - 4) as nat,
        ));
        assert((4 * k + m - 4) as nat == 4 * ((k - 1) as nat) + m);
        assert((w + byte_stream32(step32(s), 4 * ((k - 1) as nat))) + byte_stream32(
            advance32(s, k),
            m,
        ) =~= w + (byte_stream32(step32(s), 4 * ((k - 1) as nat)) + byte_stream32(
            advance32(s, k),
            m,
        )));
    }
}

/// Width-derivation consistency: the derived 64-bit value pairs the next
/// two native words of the stream, the first word in the low bits.
pub proof fn lemma_pair_from_stream32(s: Sfc32State)
    ensures
        pair_u64(out32(s), out32(step32(s))) == pair_u64(stream32(s, 2)[0], stream32(s, 2)[1]),
{
    assert(stream32(s, 2) == seq![out32(s)] + stream32(step32(s), 1));
    assert(stream32(step32(s), 1) == seq![out32(step32(s))] + stream32(step32(step32(s)), 0));
    assert(stream32(s, 2)[0] == out32(s));
    assert(stream32(s, 2)[1] == out32(step32(s)));
}

/// Serialization round-trip: decoding the persistence encoding of any
/// state restores that state exactly, so deserializing a serialized engine
/// yields an equal engine with an identical subsequent output stream.
pub proof fn lemma_state_codec32(s: Sfc32State)
    ensures
        state_bytes32(s).len() == 16,
        parse_state32(state_bytes32(s)) == s,
{
    lemma_auto_spec_u32_to_from_le_bytes();
    assert(state_bytes32(s).subrange(0, 4) =~= spec_u32_to_le_bytes(s.a));
    assert(state_bytes32(s).subrange(4, 8) =~= spec_u32_to_le_bytes(s.b));
    assert(state_bytes32(s).subrange(8, 12) =~= spec_u32_to_le_bytes(s.c));
    assert(state_bytes32(s).subrange(12, 16) =~= spec_u32_to_le_bytes(s.counter));
}

/// An sfc32 random number generator.
///
/// The engine holds a 128-bit state and emits 32-bit words; the average
/// period is about 2<sup>127</sup> and the minimum period is at least
/// 2<sup>32</sup>. It is fast and reproducible but not suitable for
/// cryptographic use.
#[derive(Clone, Debug, PartialEq, Eq, Structural)]
pub struct Sfc32 {
    a: u32,
    b: u32,
    c: u32,
    counter: u32,
}

impl View for Sfc32 {
    type V = Sfc32State;

    closed spec fn view(&self) -> Sfc32State {
        Sfc32State { a: self.a, b: self.b, c: self.c, counter: self.counter }
    }
}

/// Two engines are equal exactly when their four state words are equal,
/// however each was constructed.
pub proof fn lemma_eq_is_state_eq32(x: Sfc32, y: Sfc32)
    ensures
        x == y <==> x@ == y@,
{
}

/// Engines in the same state produce the same output stream: the word
/// stream is a function of the state alone.
pub proof fn lemma_determinism32(x: Sfc32, y: Sfc32, n: nat)
    requires
        x@ == y@,
    ensures
        stream32(x@, n) == stream32(y@, n),
        x == y,
{
}

impl Sfc32 {
    /// Creates a new `Sfc32` from the given seed words.
    ///
    /// The raw words are loaded with the counter at 1 and then mixed by
    /// discarding `rounds` warm-up rounds; if `rounds` is `None`, the
    /// default of 15 rounds is used.
    #[must_use]
    pub fn new(a: u32, b: u32, c: u32, rounds: Option<u32>) -> (r: Self)
        ensures
            r@ == advance32(init32(a, b, c), rounds_or(rounds, 15)),
    {
        let mut state = Sfc32 { a, b, c, counter: 1 };
        let n: u32 = match rounds {
            Some(k) => k,
            None => 15,
        };
        assert(state@ == advance32(init32(a, b, c), 0));
        for i in 0..n
            invariant
                state@ == advance32(init32(a, b, c), i as nat),
        {
            state.next_u32();
            proof {
                lemma_advance32_snoc(init32(a, b, c), i as nat);
            }
        }
        state
    }

    /// Advances the state by one round and returns the emitted word.
    pub fn next_u32(&mut self) -> (r: u32)
        ensures
            r == out32(old(self)@),
            final(self)@ == step32(old(self)@),
    {
        let tmp: u32 = self.a.wrapping_add(self.b).wrapping_add(self.counter);
        self.a = self.b ^ (self.b >> 9u32);
        self.b = self.c.wrapping_add(self.c << 3u32);
        self.c = ((self.c << 21u32) | (self.c >> 11u32)).wrapping_add(tmp);
        self.counter = self.counter.wrapping_add(1);
        tmp
    }

    /// Returns a 64-bit value derived from two consecutive native words,
    /// the first word in the low bits.
    pub fn next_u64(&mut self) -> (r: u64)
        ensures
            r == pair_u64(out32(old(self)@), out32(step32(old(self)@))),
            final(self)@ == advance32(old(self)@, 2),
    {
        let x: u32 = self.next_u32();
        let y: u32 = self.next_u32();
        proof {
            assert(advance32(old(self)@, 2) == advance32(step32(old(self)@), 1));
            assert(advance32(step32(old(self)@), 1) == advance32(
                step32(step32(old(self)@)),
                0,
            ));
        }
        ((y as u64) << 32u64) | (x as u64)
    }

    /// Creates a new `Sfc32` from a `u64` seed mapped onto the raw words
    /// as `(0, low half, high half)`.
    ///
    /// If `rounds` is `None`, the state is mixed up 12 rounds — a
    /// deliberately different default from the byte seeding path, so the
    /// two paths diverge even for matching seed material. For the same
    /// reason the result differs from [`Sfc32::seed_from_u64`].
    #[must_use]
    pub fn new_u64(seed: u64, rounds: Option<u32>) -> (r: Self)
        ensures
            r@ == advance32(init32(0u32, low_u32(seed), high_u32(seed)), rounds_or(rounds, 12)),
    {
        assert((seed & 0xffff_ffff) < 0x1_0000_0000) by (bit_vector);
        assert((seed >> 32u64) < 0x1_0000_0000) by (bit_vector);
        let b: u32 = (seed & 0xffff_ffffu64) as u32;
        let c: u32 = (seed >> 32u64) as u32;
        let rounds: Option<u32> = match rounds {
            Some(k) => Some(k),
            None => Some(12),
        };
        Self::new(0, b, c, rounds)
    }

    /// Creates a new `Sfc32` from a 12-byte seed block, decoded as three
    /// little-endian words and mixed with the default 15 warm-up rounds.
    pub fn from_seed(seed: [u8; 12]) -> (r: Self)
        ensures
            r@ == seeded32(seed@),
    {
        let s: &[u8] = seed.as_slice();
        let a: u32 = u32_from_le_bytes(slice_subrange(s, 0, 4));
        let b: u32 = u32_from_le_bytes(slice_subrange(s, 4, 8));
        let c: u32 = u32_from_le_bytes(slice_subrange(s, 8, 12));
        Self::new(a, b, c, None)
    }

    /// Creates a new `Sfc32` from a single 64-bit value by expanding it
    /// into three well-mixed words (see [`crate::pcg`]) and following the
    /// byte seeding path with its 15-round default warm-up.
    pub fn seed_from_u64(state: u64) -> (r: Self)
        ensures
            r@ == advance32(
                init32(
                    pcg::pcg_word(state, 0),
                    pcg::pcg_word(state, 1),
                    pcg::pcg_word(state, 2),
                ),
                15,
            ),
    {
        let mut s: u64 = state;
        let a: u32 = pcg::pcg_next(&mut s);
        let b: u32 = pcg::pcg_next(&mut s);
        let c: u32 = pcg::pcg_next(&mut s);
        proof {
            assert(pcg::pcg_state(state, 0) == state);
            assert(pcg::pcg_state(state, 1) == pcg::pcg_advance(pcg::pcg_state(state, 0)));
            assert(pcg::pcg_state(state, 2) == pcg::pcg_advance(pcg::pcg_state(state, 1)));
            assert(pcg::pcg_state(state, 3) == pcg::pcg_advance(pcg::pcg_state(state, 2)));
        }
        Self::new(a, b, c, None)
    }

    /// Creates a new `Sfc32` seeded with fresh operating-system entropy,
    /// following the byte seeding path.
    ///
    /// Fails with [`SfcError::EntropyUnavailable`] exactly when the
    /// entropy source fails; a weaker seed is never substituted.
    pub fn from_entropy() -> (r: Result<Self, SfcError>)
        ensures
            r matches Ok(eng) ==> exists|s: Seq<u8>|
                s.len() == 12 && #[trigger] seeded32(s) == eng@,
            r matches Err(e) ==> e == SfcError::EntropyUnavailable,
    {
        let mut buf: Vec<u8> = vec![0u8; 12];
        match entropy::fill_from_os(&mut buf) {
            Ok(_) => {
                let s: &[u8] = buf.as_slice();
                let a: u32 = u32_from_le_bytes(slice_subrange(s, 0, 4));
                let b: u32 = u32_from_le_bytes(slice_subrange(s, 4, 8));
                let c: u32 = u32_from_le_bytes(slice_subrange(s, 8, 12));
                let eng = Self::new(a, b, c, None);
                proof {
                    assert(seeded32(buf@) == eng@);
                }
                Ok(eng)
            },
            Err(_) => Err(SfcError::EntropyUnavailable),
        }
    }

    /// Overwrites `dst` with the next bytes of the stream, keeping its
    /// length: successive words serialized little-endian front to back, a
    /// final partial word contributing only its low-order bytes. Filling
    /// any started word consumes a full round, so even a buffer shorter
    /// than one word advances the state once.
    pub fn fill_bytes(&mut self, dst: &mut Vec<u8>)
        ensures
            final(dst)@.len() == old(dst)@.len(),
            final(dst)@ == byte_stream32(old(self)@, old(dst)@.len() as nat),
            final(self)@ == advance32(old(self)@, words_for32(old(dst)@.len() as nat)),
    {
        let n: usize = dst.len();
        let ghost s0 = self@;
        dst.clear();
        let ghost mut k: nat = 0;
        while n - dst.len() >= 4
            invariant
                dst@.len() <= n,
                dst@.len() == 4 * k,
                self@ == advance32(s0, k),
                dst@ + byte_stream32(self@, (n - dst@.len()) as nat) == byte_stream32(
                    s0,
                    n as nat,
                ),
            decreases n - dst@.len(),
        {
            let ghost pre = self@;
            let ghost rem = (n - dst@.len()) as nat;
            let w: u32 = self.next_u32();
            let mut wb: Vec<u8> = u32_to_le_bytes(w);
            dst.append(&mut wb);
            proof {
                lemma_advance32_snoc(s0, k);
                k = k + 1;
                assert(byte_stream32(pre, rem) == spec_u32_to_le_bytes(out32(pre))
                    + byte_stream32(step32(pre), (rem - 4) as nat));
                assert(dst@ + byte_stream32(self@, (n - dst@.len()) as nat) =~= byte_stream32(
                    s0,
                    n as nat,
                ));
            }
        }
        let rem: usize = n - dst.len();
        if rem == 0 {
            proof {
                assert(byte_stream32(self@, 0) == Seq::<u8>::empty());
                assert(dst@ + Seq::<u8>::empty() =~= dst@);
                lemma_fundamental_div_mod_converse(n as int, 4, k as int, 0);
            }
        } else {
            let ghost pre = self@;
            let ghost base = dst@;
            let w: u32 = self.next_u32();
            let wb: Vec<u8> = u32_to_le_bytes(w);
            proof {
                lemma_advance32_snoc(s0, k);
                k = k + 1;
            }
            let mut j: usize = 0;
            while j < rem
                invariant
                    j <= rem,
                    rem < 4,
                    wb@.len() == 4,
                    wb@ == spec_u32_to_le_bytes(w),
                    dst@ == base + wb@.take(j as int),
                decreases rem - j,
            {
                let b: u8 = wb[j];
                dst.push(b);
                proof {
                    assert(base + wb@.take((j + 1) as int) =~= (base + wb@.take(
                        j as int,
                    )).push(wb@[j as int]));
                }
                j += 1;
            }
            proof {
                assert(byte_stream32(pre, rem as nat) == spec_u32_to_le_bytes(
                    out32(pre),
                ).take(rem as int));
                assert(dst@ =~= base + byte_stream32(pre, rem as nat));
                lemma_fundamental_div_mod_converse(n as int, 4, (k - 1) as int, rem as int);
            }
        }
    }

    /// Encodes the four state words for persistence: `a`, `b`, `c`,
    /// `counter` in that order, each little-endian, 16 bytes in all.
    pub fn serialize(&self) -> (out: Vec<u8>)
        ensures
            out@ == state_bytes32(self@),
            out@.len() == 16,
    {
        let mut out: Vec<u8> = u32_to_le_bytes(self.a);
        let mut wb: Vec<u8> = u32_to_le_bytes(self.b);
        out.append(&mut wb);
        let mut wc: Vec<u8> = u32_to_le_bytes(self.c);
        out.append(&mut wc);
        let mut wk: Vec<u8> = u32_to_le_bytes(self.counter);
        out.append(&mut wk);
        proof {
            assert(out@ =~= state_bytes32(self@));
        }
        out
    }

    /// Decodes a persistence payload produced by [`Sfc32::serialize`].
    ///
    /// Rejects any payload that is not exactly the four 32-bit state words
    /// with [`SfcError::MalformedState`]; no partially initialized engine
    /// is ever produced.
    pub fn deserialize(bytes: &[u8]) -> (r: Result<Self, SfcError>)
        ensures
            bytes@.len() == 16 ==> (r matches Ok(eng) && eng@ == parse_state32(bytes@)),
            bytes@.len() != 16 ==> r == Err::<Sfc32, SfcError>(SfcError::MalformedState),
    {
        if bytes.len() != 16 {
            return Err(SfcError::MalformedState);
        }
        let a: u32 = u32_from_le_bytes(slice_subrange(bytes, 0, 4));
        let b: u32 = u32_from_le_bytes(slice_subrange(bytes, 4, 8));
        let c: u32 = u32_from_le_bytes(slice_subrange(bytes, 8, 12));
        let counter: u32 = u32_from_le_bytes(slice_subrange(bytes, 12, 16));
        Ok(Sfc32 { a, b, c, counter })
    }
}

} // verus!

