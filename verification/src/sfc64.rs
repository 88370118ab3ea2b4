//! The sfc64 engine: 256-bit state, 64-bit output words.

use vstd::arithmetic::div_mod::lemma_fundamental_div_mod_converse;
use vstd::bytes::lemma_auto_spec_u64_to_from_le_bytes;
use vstd::bytes::spec_u64_from_le_bytes;
use vstd::bytes::spec_u64_to_le_bytes;
use vstd::bytes::u64_from_le_bytes;
use vstd::bytes::u64_to_le_bytes;
use vstd::prelude::*;
use vstd::slice::slice_subrange;
use vstd::wrapping::u64_specs;

use crate::entropy;
use crate::error::SfcError;
use crate::pcg;
use crate::words::low_u32;
use crate::words::pair_u64;

verus! {

/// The four state words of an sfc64 engine: the mathematical model that all
/// contracts in this module speak of.
pub struct Sfc64State {
    pub a: u64,
    pub b: u64,
    pub c: u64,
    pub counter: u64,
}

/// `x` rotated left by `r` bits.
pub open spec fn rotl64(x: u64, r: u64) -> u64
    recommends
        0 < r < 64,
{
    (x << r) | (x >> ((64 - r) as u64))
}

/// The state freshly loaded with three raw seed words, before any warm-up:
/// the counter starts at 1.
pub open spec fn init64(a: u64, b: u64, c: u64) -> Sfc64State {
    Sfc64State { a: a, b: b, c: c, counter: 1u64 }
}

/// The word that one round emits from state `s`: the wrapping sum
/// `a + b + counter`.
pub open spec fn out64(s: Sfc64State) -> u64 {
    u64_specs::wrapping_add(u64_specs::wrapping_add(s.a, s.b), s.counter)
}

/// One round of the sfc64 state transition, with the fixed constants
/// rotation 24, right shift 11, left shift 3. The counter increments after
/// the output word is formed; all additions wrap.
pub open spec fn step64(s: Sfc64State) -> Sfc64State {
    Sfc64State {
        a: s.b ^ (s.b >> 11),
        b: u64_specs::wrapping_add(s.c, s.c << 3),
        c: u64_specs::wrapping_add(rotl64(s.c, 24), out64(s)),
        counter: u64_specs::wrapping_add(s.counter, 1),
    }
}

/// The state after `n` rounds from `s`.
pub open spec fn advance64(s: Sfc64State, n: nat) -> Sfc64State
    decreases n,
{
    if n == 0 {
        s
    } else {
        advance64(step64(s), (n - 1) as nat)
    }
}

/// The next `n` output words from state `s`.
pub open spec fn stream64(s: Sfc64State, n: nat) -> Seq<u64>
    decreases n,
{
    if n == 0 {
        Seq::<u64>::empty()
    } else {
        seq![out64(s)] + stream64(step64(s), (n - 1) as nat)
    }
}

/// The first `n` bytes of the byte stream from state `s`: each round's
/// word serialized in little-endian order, a final partial word
/// contributing only its low-order bytes (still computed as a full round).
pub open spec fn byte_stream64(s: Sfc64State, n: nat) -> Seq<u8>
    decreases n,
{
    if n == 0 {
        Seq::<u8>::empty()
    } else if n < 8 {
        spec_u64_to_le_bytes(out64(s)).take(n as int)
    } else {
        spec_u64_to_le_bytes(out64(s)) + byte_stream64(step64(s), (n - 8) as nat)
    }
}

/// How many rounds filling `n` bytes consumes: one per word started.
pub open spec fn words_for64(n: nat) -> nat {
    if n % 8 == 0 {
        n / 8
    } else {
        n / 8 + 1
    }
}

/// The little-endian concatenation of a sequence of 64-bit words.
pub open spec fn words_to_bytes64(ws: Seq<u64>) -> Seq<u8>
    decreases ws.len(),
{
    if ws.len() == 0 {
        Seq::<u8>::empty()
    } else {
        spec_u64_to_le_bytes(ws.first()) + words_to_bytes64(ws.drop_first())
    }
}

/// The flat persistence encoding of a state: the four words `a`, `b`, `c`,
/// `counter` in that order, each little-endian.
pub open spec fn state_bytes64(s: Sfc64State) -> Seq<u8> {
    spec_u64_to_le_bytes(s.a) + spec_u64_to_le_bytes(s.b) + spec_u64_to_le_bytes(s.c)
        + spec_u64_to_le_bytes(s.counter)
}

/// The state held in a 32-byte persistence payload.
pub open spec fn parse_state64(b: Seq<u8>) -> Sfc64State
    recommends
        b.len() == 32,
{
    Sfc64State {
        a: spec_u64_from_le_bytes(b.subrange(0, 8)),
        b: spec_u64_from_le_bytes(b.subrange(8, 16)),
        c: spec_u64_from_le_bytes(b.subrange(16, 24)),
        counter: spec_u64_from_le_bytes(b.subrange(24, 32)),
    }
}

/// The state that the byte seeding path reaches from a 24-byte block:
/// three little-endian words, then the 18-round default warm-up.
pub open spec fn seeded64(seed: Seq<u8>) -> Sfc64State
    recommends
        seed.len() == 24,
{
    advance64(
        init64(
            spec_u64_from_le_bytes(seed.subrange(0, 8)),
            spec_u64_from_le_bytes(seed.subrange(8, 16)),
            spec_u64_from_le_bytes(seed.subrange(16, 24)),
        ),
        18,
    )
}

/// The warm-up round count that a seeding path runs: the caller's override
/// if one was given, else the path's default.
pub open spec fn rounds_or64(rounds: Option<u64>, default: u64) -> nat {
    match rounds {
        Some(k) => k as nat,
        None => default as nat,
    }
}

/// Advancing one round more is one more step: `advance64` peels rounds from
/// the front, this lemma peels them from the back.
pub proof fn lemma_advance64_snoc(s: Sfc64State, n: nat)
    ensures
        advance64(s, n + 1) == step64(advance64(s, n)),
    decreases n,
{
    if n == 0 {
        assert(advance64(s, 1) == advance64(step64(s), 0));
    } else {
        lemma_advance64_snoc(step64(s), (n - 1) as nat);
        assert(advance64(s, n + 1) == advance64(step64(s), n));
        assert(advance64(s, n) == advance64(step64(s), (n - 1) as nat));
    }
}

/// Byte/word consistency: a fill of `8·n` bytes is exactly the
/// little-endian concatenation of the next `n` native words.
pub proof fn lemma_byte_stream_is_word_stream64(s: Sfc64State, n: nat)
    ensures
        byte_stream64(s, 8 * n) == words_to_bytes64(stream64(s, n)),
    decreases n,
{
    if n == 0 {
        assert(byte_stream64(s, 0) == Seq::<u8>::empty());
        assert(words_to_bytes64(stream64(s, 0)) == Seq::<u8>::empty());
    } else {
        lemma_byte_stream_is_word_stream64(step64(s), (n - 1) as nat);
        let ws = stream64(s, n);
        assert(ws == seq![out64(s)] + stream64(step64(s), (n - 1) as nat));
        assert(ws.first() == out64(s));
        assert(ws.drop_first() =~= stream64(step64(s), (n - 1) as nat));
        assert(words_to_bytes64(ws) == spec_u64_to_le_bytes(out64(s)) + words_to_bytes64(
            ws.drop_first(),
        ));
        assert(byte_stream64(s, 8 * n) == spec_u64_to_le_bytes(out64(s)) + byte_stream64(
            step64(s),
            (8 * n - 8) as nat,
        ));
        assert((8 * n - 8) as nat == 8 * ((n - 1) as nat));
    }
}

/// Chunked fills compose: filling `8·k` bytes and then `m` more bytes from
/// the advanced state equals one fill of `8·k + m` bytes from the original
/// state, so a buffer filled in word-sized chunks matches one filled in a
/// single call.
pub proof fn lemma_fill_chunks64(s: Sfc64State, k: nat, m: nat)
    ensures
        byte_stream64(s, 8 * k) + byte_stream64(advance64(s, k), m) == byte_stream64(
            s,
            8 * k + m,
        ),
    decreases k,
{
    if k == 0 {
        assert(byte_stream64(s, 0) + byte_stream64(s, m) =~= byte_stream64(s, m));
    } else {
        lemma_fill_chunks64(step64(s), (k - 1) as nat, m);
        let w = spec_u64_to_le_bytes(out64(s));
        assert(byte_stream64(s, 8 * k) == w + byte_stream64(step64(s), (8 * k - 8) as nat));
        assert((8 * k - 8) as nat == 8 * ((k - 1) as nat));
        assert(advance64(s, k) == advance64(step64(s), (k - 1) as nat));
        assert(byte_stream64(s, 8 * k + m) == w + byte_stream64(
            step64(s),
            (8 * k + m - 8) as nat,
        ));
        assert((8 * k + m - 8) as nat == 8 * ((k - 1) as nat) + m);
        assert((w + byte_stream64(step64(s), 8 * ((k - 1) as nat))) + byte_stream64(
            advance64(s, k),
            m,
        ) =~= w + (byte_stream64(step64(s), 8 * ((k - 1) as nat)) + byte_stream64(
            advance64(s, k),
            m,
        )));
    }
}

/// Width-derivation consistency: the derived 32-bit value is the low half
/// of the next native word of the stream.
pub proof fn lemma_low_from_stream64(s: Sfc64State)
    ensures
        low_u32(out64(s)) == low_u32(stream64(s, 1)[0]),
{
    assert(stream64(s, 1) == seq![out64(s)] + stream64(step64(s), 0));
    assert(stream64(s, 1)[0] == out64(s));
}

/// Serialization round-trip: decoding the persistence encoding of any
/// state restores that state exactly, so deserializing a serialized engine
/// yields an equal engine with an identical subsequent output stream.
pub proof fn lemma_state_codec64(s: Sfc64State)
    ensures
        state_bytes64(s).len() == 32,
        parse_state64(state_bytes64(s)) == s,
{
    lemma_auto_spec_u64_to_from_le_bytes();
    assert(state_bytes64(s).subrange(0, 8) =~= spec_u64_to_le_bytes(s.a));
    assert(state_bytes64(s).subrange(8, 16) =~= spec_u64_to_le_bytes(s.b));
    assert(state_bytes64(s).subrange(16, 24) =~= spec_u64_to_le_bytes(s.c));
    assert(state_bytes64(s).subrange(24, 32) =~= spec_u64_to_le_bytes(s.counter));
}

/// An sfc64 random number generator.
///
/// The engine holds a 256-bit state and emits 64-bit words; the average
/// period is about 2<sup>255</sup> and the minimum period is at least
/// 2<sup>64</sup>. It is fast and reproducible but not suitable for
/// cryptographic use.
#[derive(Clone, Debug, PartialEq, Eq, Structural)]
pub struct Sfc64 {
    a: u64,
    b: u64,
    c: u64,
    counter: u64,
}

impl View for Sfc64 {
    type V = Sfc64State;

    closed spec fn view(&self) -> Sfc64State {
        Sfc64State { a: self.a, b: self.b, c: self.c, counter: self.counter }
    }
}

/// Two engines are equal exactly when their four state words are equal,
/// however each was constructed.
pub proof fn lemma_eq_is_state_eq64(x: Sfc64, y: Sfc64)
    ensures
        x == y <==> x@ == y@,
{
}

/// Engines in the same state produce the same output stream: the word
/// stream is a function of the state alone.
pub proof fn lemma_determinism64(x: Sfc64, y: Sfc64, n: nat)
    requires
        x@ == y@,
    ensures
        stream64(x@, n) == stream64(y@, n),
        x == y,
{
}

impl Sfc64 {
    /// Creates a new `Sfc64` from the given seed words.
    ///
    /// The raw words are loaded with the counter at 1 and then mixed by
    /// discarding `rounds` warm-up rounds; if `rounds` is `None`, the
    /// default of 18 rounds is used.
    #[must_use]
    pub fn new(a: u64, b: u64, c: u64, rounds: Option<u64>) -> (r: Self)
        ensures
            r@ == advance64(init64(a, b, c), rounds_or64(rounds, 18)),
    {
        let mut state = Sfc64 { a, b, c, counter: 1 };
        let n: u64 = match rounds {
            Some(k) => k,
            None => 18,
        };
        assert(state@ == advance64(init64(a, b, c), 0));
        for i in 0..n
            invariant
                state@ == advance64(init64(a, b, c), i as nat),
        {
            state.next_u64();
            proof {
                lemma_advance64_snoc(init64(a, b, c), i as nat);
            }
        }
        state
    }

    /// Advances the state by one round and returns the emitted word.
    pub fn next_u64(&mut self) -> (r: u64)
        ensures
            r == out64(old(self)@),
            final(self)@ == step64(old(self)@),
    {
        let tmp: u64 = self.a.wrapping_add(self.b).wrapping_add(self.counter);
        self.a = self.b ^ (self.b >> 11u64);
        self.b = self.c.wrapping_add(self.c << 3u64);
        self.c = ((self.c << 24u64) | (self.c >> 40u64)).wrapping_add(tmp);
        self.counter = self.counter.wrapping_add(1);
        tmp
    }

    /// Returns a 32-bit value derived from one native word by truncation to
    /// its low 32 bits.
    pub fn next_u32(&mut self) -> (r: u32)
        ensures
            r == low_u32(out64(old(self)@)),
            final(self)@ == step64(old(self)@),
    {
        let w: u64 = self.next_u64();
        assert((w & 0xffff_ffff) < 0x1_0000_0000) by (bit_vector);
        (w & 0xffff_ffffu64) as u32
    }

    /// Creates a new `Sfc64` from a `u64` seed loaded into all three raw
    /// words.
    ///
    /// If `rounds` is `None`, the state is mixed up 12 rounds — a
    /// deliberately different default from the byte seeding path, so the
    /// two paths diverge even for matching seed material. For the same
    /// reason the result differs from [`Sfc64::seed_from_u64`].
    #[must_use]
    pub fn new_u64(seed: u64, rounds: Option<u64>) -> (r: Self)
        ensures
            r@ == advance64(init64(seed, seed, seed), rounds_or64(rounds, 12)),
    {
        let rounds: Option<u64> = match rounds {
            Some(k) => Some(k),
            None => Some(12),
        };
        Self::new(seed, seed, seed, rounds)
    }

    /// Creates a new `Sfc64` from a 24-byte seed block, decoded as three
    /// little-endian words and mixed with the default 18 warm-up rounds.
    pub fn from_seed(seed: [u8; 24]) -> (r: Self)
        ensures
            r@ == seeded64(seed@),
    {
        let s: &[u8] = seed.as_slice();
        let a: u64 = u64_from_le_bytes(slice_subrange(s, 0, 8));
        let b: u64 = u64_from_le_bytes(slice_subrange(s, 8, 16));
        let c: u64 = u64_from_le_bytes(slice_subrange(s, 16, 24));
        Self::new(a, b, c, None)
    }

    /// Creates a new `Sfc64` from a single 64-bit value by expanding it
    /// into six well-mixed 32-bit words (see [`crate::pcg`]), pairing them
    /// little-endian into three native words, and following the byte
    /// seeding path with its 18-round default warm-up.
    pub fn seed_from_u64(state: u64) -> (r: Self)
        ensures
            r@ == advance64(
                init64(
                    pair_u64(pcg::pcg_word(state, 0), pcg::pcg_word(state, 1)),
                    pair_u64(pcg::pcg_word(state, 2), pcg::pcg_word(state, 3)),
                    pair_u64(pcg::pcg_word(state, 4), pcg::pcg_word(state, 5)),
                ),
                18,
            ),
    {
        let mut s: u64 = state;
        let w0: u32 = pcg::pcg_next(&mut s);
        let w1: u32 = pcg::pcg_next(&mut s);
        let w2: u32 = pcg::pcg_next(&mut s);
        let w3: u32 = pcg::pcg_next(&mut s);
        let w4: u32 = pcg::pcg_next(&mut s);
        let w5: u32 = pcg::pcg_next(&mut s);
        proof {
            assert(pcg::pcg_state(state, 0) == state);
            assert(pcg::pcg_state(state, 1) == pcg::pcg_advance(pcg::pcg_state(state, 0)));
            assert(pcg::pcg_state(state, 2) == pcg::pcg_advance(pcg::pcg_state(state, 1)));
            assert(pcg::pcg_state(state, 3) == pcg::pcg_advance(pcg::pcg_state(state, 2)));
            assert(pcg::pcg_state(state, 4) == pcg::pcg_advance(pcg::pcg_state(state, 3)));
            assert(pcg::pcg_state(state, 5) == pcg::pcg_advance(pcg::pcg_state(state, 4)));
            assert(pcg::pcg_state(state, 6) == pcg::pcg_advance(pcg::pcg_state(state, 5)));
        }
        let a: u64 = ((w1 as u64) << 32u64) | (w0 as u64);
        let b: u64 = ((w3 as u64) << 32u64) | (w2 as u64);
        let c: u64 = ((w5 as u64) << 32u64) | (w4 as u64);
        Self::new(a, b, c, None)
    }

    /// Creates a new `Sfc64` seeded with fresh operating-system entropy,
    /// following the byte seeding path.
    ///
    /// Fails with [`SfcError::EntropyUnavailable`] exactly when the
    /// entropy source fails; a weaker seed is never substituted.
    pub fn from_entropy() -> (r: Result<Self, SfcError>)
        ensures
            r matches Ok(eng) ==> exists|s: Seq<u8>|
                s.len() == 24 && #[trigger] seeded64(s) == eng@,
            r matches Err(e) ==> e == SfcError::EntropyUnavailable,
    {
        let mut buf: Vec<u8> = vec![0u8; 24];
        match entropy::fill_from_os(&mut buf) {
            Ok(_) => {
                let s: &[u8] = buf.as_slice();
                let a: u64 = u64_from_le_bytes(slice_subrange(s, 0, 8));
                let b: u64 = u64_from_le_bytes(slice_subrange(s, 8, 16));
                let c: u64 = u64_from_le_bytes(slice_subrange(s, 16, 24));
                let eng = Self::new(a, b, c, None);
                proof {
                    assert(seeded64(buf@) == eng@);
                }
                Ok(eng)
            },
            Err(_) => Err(SfcError::EntropyUnavailable),
        }
    }

    /// Overwrites `dst` with the next bytes of the stream, keeping its
    /// length: successive words serialized little-endian front to back, a
    /// final partial word contributing only its low-order bytes. Filling
    /// any started word consumes a full round, so even a buffer shorter
    /// than one word advances the state once.
    pub fn fill_bytes(&mut self, dst: &mut Vec<u8>)
        ensures
            final(dst)@.len() == old(dst)@.len(),
            final(dst)@ == byte_stream64(old(self)@, old(dst)@.len() as nat),
            final(self)@ == advance64(old(self)@, words_for64(old(dst)@.len() as nat)),
    {
        let n: usize = dst.len();
        let ghost s0 = self@;
        dst.clear();
        let ghost mut k: nat = 0;
        while n - dst.len() >= 8
            invariant
                dst@.len() <= n,
                dst@.len() == 8 * k,
                self@ == advance64(s0, k),
                dst@ + byte_stream64(self@, (n - dst@.len()) as nat) == byte_stream64(
                    s0,
                    n as nat,
                ),
            decreases n - dst@.len(),
        {
            let ghost pre = self@;
            let ghost rem = (n - dst@.len()) as nat;
            let w: u64 = self.next_u64();
            let mut wb: Vec<u8> = u64_to_le_bytes(w);
            dst.append(&mut wb);
            proof {
                lemma_advance64_snoc(s0, k);
                k = k + 1;
                assert(byte_stream64(pre, rem) == spec_u64_to_le_bytes(out64(pre))
                    + byte_stream64(step64(pre), (rem - 8) as nat));
                assert(dst@ + byte_stream64(self@, (n - dst@.len()) as nat) =~= byte_stream64(
                    s0,
                    n as nat,
                ));
            }
        }
        let rem: usize = n - dst.len();
        if rem == 0 {
            proof {
                assert(byte_stream64(self@, 0) == Seq::<u8>::empty());
                assert(dst@ + Seq::<u8>::empty() =~= dst@);
                lemma_fundamental_div_mod_converse(n as int, 8, k as int, 0);
            }
        } else {
            let ghost pre = self@;
            let ghost base = dst@;
            let w: u64 = self.next_u64();
            let wb: Vec<u8> = u64_to_le_bytes(w);
            proof {
                lemma_advance64_snoc(s0, k);
                k = k + 1;
            }
            let mut j: usize = 0;
            while j < rem
                invariant
                    j <= rem,
                    rem < 8,
                    wb@.len() == 8,
                    wb@ == spec_u64_to_le_bytes(w),
                    dst@ == base + wb@.take(j as int),
                decreases rem - j,
            {
                let b: u8 = wb[j];
                dst.push(b);
                proof {
                    assert(base + wb@.take((j + 1) as int) =~= (base + wb@.take(
                        j as int,
                    )).push(wb@[j as int]));
                }
                j += 1;
            }
            proof {
                assert(byte_stream64(pre, rem as nat) == spec_u64_to_le_bytes(
                    out64(pre),
                ).take(rem as int));
                assert(dst@ =~= base + byte_stream64(pre, rem as nat));
                lemma_fundamental_div_mod_converse(n as int, 8, (k - 1) as int, rem as int);
            }
        }
    }

    /// Encodes the four state words for persistence: `a`, `b`, `c`,
    /// `counter` in that order, each little-endian, 32 bytes in all.
    pub fn serialize(&self) -> (out: Vec<u8>)
        ensures
            out@ == state_bytes64(self@),
            out@.len() == 32,
    {
        let mut out: Vec<u8> = u64_to_le_bytes(self.a);
        let mut wb: Vec<u8> = u64_to_le_bytes(self.b);
        out.append(&mut wb);
        let mut wc: Vec<u8> = u64_to_le_bytes(self.c);
        out.append(&mut wc);
        let mut wk: Vec<u8> = u64_to_le_bytes(self.counter);
        out.append(&mut wk);
        proof {
            assert(out@ =~= state_bytes64(self@));
        }
        out
    }

    /// Decodes a persistence payload produced by [`Sfc64::serialize`].
    ///
    /// Rejects any payload that is not exactly the four 64-bit state words
    /// with [`SfcError::MalformedState`]; no partially initialized engine
    /// is ever produced.
    pub fn deserialize(bytes: &[u8]) -> (r: Result<Self, SfcError>)
        ensures
            bytes@.len() == 32 ==> (r matches Ok(eng) && eng@ == parse_state64(bytes@)),
            bytes@.len() != 32 ==> r == Err::<Sfc64, SfcError>(SfcError::MalformedState),
    {
        if bytes.len() != 32 {
            return Err(SfcError::MalformedState);
        }
        let a: u64 = u64_from_le_bytes(slice_subrange(bytes, 0, 8));
        let b: u64 = u64_from_le_bytes(slice_subrange(bytes, 8, 16));
        let c: u64 = u64_from_le_bytes(slice_subrange(bytes, 16, 24));
        let counter: u64 = u64_from_le_bytes(slice_subrange(bytes, 24, 32));
        Ok(Sfc64 { a, b, c, counter })
    }
}

} // verus!
