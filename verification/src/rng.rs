//! Seeded random numbers with named sub-streams, so that adding random calls in
//! one system never reshuffles another system's rolls.

use vstd::prelude::*;
use rand::Rng;
use rand::seq::SliceRandom;
use rand::SeedableRng;
use rand::RngCore;
use rand_chacha::ChaCha20Rng;

verus! {

/// The ChaCha20 generator of `rand_chacha`, opaque to the rules.
#[verifier::external_type_specification]
#[verifier::external_body]
pub struct ExChaCha20Rng(ChaCha20Rng);

/// The 32-byte key of the stream `name` under master seed `seed`: the seed's eight
/// little-endian bytes, then up to 24 bytes of the name, then zeros.
pub open spec fn stream_key(seed: u64, name: Seq<u8>) -> Seq<u8> {
    Seq::new(
        32,
        |i: int|
            if i < 8 {
                ((seed >> ((8 * i) as u64)) & 0xff) as u8
            } else if i - 8 < name.len() && i - 8 < 24 {
                name[i - 8]
            } else {
                0u8
            },
    )
}

/// What a ChaCha20 generator holds: its 32-byte key, its stream number, and the position,
/// counted in 32-bit words from the start of that stream, of the next word it hands out
/// (`get_seed`, `get_stream` and `get_word_pos` of `rand_chacha`). Every later draw is a
/// function of these three.
pub uninterp spec fn chacha_state(g: ChaCha20Rng) -> (Seq<u8>, u64, u128);

/// What `Rng::gen_range(0..bound)` of `rand` returns for `u32` on the keystream of `key`
/// and `stream` read from word `pos`, with the position after the draw.
pub uninterp spec fn chacha_below_draw(key: Seq<u8>, stream: u64, pos: u128, bound: u32) -> (u32, u128);

/// What `Rng::gen_range(0..bound)` of `rand` returns for `u64` on the keystream of `key`
/// and `stream` read from word `pos`, with the position after the draw.
pub uninterp spec fn chacha_below_wide_draw(key: Seq<u8>, stream: u64, pos: u128, bound: u64) -> (u64, u128);

/// What `Rng::gen_range(low..high)` of `rand` returns for `i16` on the keystream of `key`
/// and `stream` read from word `pos`, with the position after the draw.
pub uninterp spec fn chacha_between_draw(key: Seq<u8>, stream: u64, pos: u128, low: i16, high: i16) -> (i16, u128);

/// What `RngCore::next_u64` of `rand_chacha` returns on the keystream of `key` and
/// `stream` read from word `pos`, with the position after the draw.
pub uninterp spec fn chacha_next_draw(key: Seq<u8>, stream: u64, pos: u128) -> (u64, u128);

/// The arrangement `SliceRandom::shuffle` of `rand` makes of `len` items with the keystream
/// of `key` and `stream` read from word `pos` (item `i` of the result is item `perm[i]` of
/// the input), with the position after the shuffle.
pub uninterp spec fn chacha_shuffle_draw(key: Seq<u8>, stream: u64, pos: u128, len: nat) -> (Seq<int>, u128);

/// `after` is `before` moved on to word `pos` of the same key and stream.
pub open spec fn moved_to(before: ChaCha20Rng, after: ChaCha20Rng, pos: u128) -> bool {
    chacha_state(after) == (chacha_state(before).0, chacha_state(before).1, pos)
}

/// Two different master seeds key every stream differently.
pub proof fn lemma_seeds_key_apart(s1: u64, s2: u64, name: Seq<u8>)
    requires
        s1 != s2,
    ensures
        stream_key(s1, name) != stream_key(s2, name),
{
    if stream_key(s1, name) == stream_key(s2, name) {
        let b0 = 0int; let b1 = 1int; let b2 = 2int; let b3 = 3int; let b4 = 4int; let b5 = 5int; let b6 = 6int; let b7 = 7int;
        assert(((s1 >> 0u64) & 0xff) as u8 == ((s2 >> 0u64) & 0xff) as u8) by { assert(stream_key(s1, name)[b0] == stream_key(s2, name)[b0]); assert(((8 * b0) as u64) == 0u64); }
        assert(((s1 >> 8u64) & 0xff) as u8 == ((s2 >> 8u64) & 0xff) as u8) by { assert(stream_key(s1, name)[b1] == stream_key(s2, name)[b1]); assert(((8 * b1) as u64) == 8u64); }
        assert(((s1 >> 16u64) & 0xff) as u8 == ((s2 >> 16u64) & 0xff) as u8) by { assert(stream_key(s1, name)[b2] == stream_key(s2, name)[b2]); assert(((8 * b2) as u64) == 16u64); }
        assert(((s1 >> 24u64) & 0xff) as u8 == ((s2 >> 24u64) & 0xff) as u8) by { assert(stream_key(s1, name)[b3] == stream_key(s2, name)[b3]); assert(((8 * b3) as u64) == 24u64); }
        assert(((s1 >> 32u64) & 0xff) as u8 == ((s2 >> 32u64) & 0xff) as u8) by { assert(stream_key(s1, name)[b4] == stream_key(s2, name)[b4]); assert(((8 * b4) as u64) == 32u64); }
        assert(((s1 >> 40u64) & 0xff) as u8 == ((s2 >> 40u64) & 0xff) as u8) by { assert(stream_key(s1, name)[b5] == stream_key(s2, name)[b5]); assert(((8 * b5) as u64) == 40u64); }
        assert(((s1 >> 48u64) & 0xff) as u8 == ((s2 >> 48u64) & 0xff) as u8) by { assert(stream_key(s1, name)[b6] == stream_key(s2, name)[b6]); assert(((8 * b6) as u64) == 48u64); }
        assert(((s1 >> 56u64) & 0xff) as u8 == ((s2 >> 56u64) & 0xff) as u8) by { assert(stream_key(s1, name)[b7] == stream_key(s2, name)[b7]); assert(((8 * b7) as u64) == 56u64); }
        assert(s1 == s2) by (bit_vector)
            requires
                ((s1 >> 0u64) & 0xff) as u8 == ((s2 >> 0u64) & 0xff) as u8,
                ((s1 >> 8u64) & 0xff) as u8 == ((s2 >> 8u64) & 0xff) as u8,
                ((s1 >> 16u64) & 0xff) as u8 == ((s2 >> 16u64) & 0xff) as u8,
                ((s1 >> 24u64) & 0xff) as u8 == ((s2 >> 24u64) & 0xff) as u8,
                ((s1 >> 32u64) & 0xff) as u8 == ((s2 >> 32u64) & 0xff) as u8,
                ((s1 >> 40u64) & 0xff) as u8 == ((s2 >> 40u64) & 0xff) as u8,
                ((s1 >> 48u64) & 0xff) as u8 == ((s2 >> 48u64) & 0xff) as u8,
                ((s1 >> 56u64) & 0xff) as u8 == ((s2 >> 56u64) & 0xff) as u8,
        ;
    }
}

/// The position `p` moved on to word `pos` of the same key and stream.
pub open spec fn advanced(p: (Seq<u8>, u64, u128), pos: u128) -> (Seq<u8>, u64, u128) {
    (p.0, p.1, pos)
}

/// `ChaCha20Rng::from_seed` of `rand_chacha`: a generator keyed by the 32 bytes of `key`,
/// on stream 0, about to hand out word 0.
#[verifier::external_body]
fn chacha_from_key(key: &Vec<u8>) -> (r: ChaCha20Rng)
    requires
        key@.len() == 32,
    ensures
        chacha_state(r) == (key@, 0u64, 0u128),
{
    let mut seed = [0u8; 32];
    seed.copy_from_slice(key.as_slice());
    ChaCha20Rng::from_seed(seed)
}

/// `Rng::gen_range(0..bound)` of `rand` on generator `i` of `streams`: the result is
/// below `bound` and is the draw named for that generator's state, which moves on to the
/// named position; no other generator changes.
#[verifier::external_body]
fn chacha_below(streams: &mut Vec<ChaCha20Rng>, i: usize, bound: u32) -> (r: u32)
    requires
        i < old(streams)@.len(),
        bound > 0,
    ensures
        r < bound,
        r == chacha_below_draw(chacha_state(old(streams)@[i as int]).0, chacha_state(old(streams)@[i as int]).1,
            chacha_state(old(streams)@[i as int]).2, bound).0,
        moved_to(old(streams)@[i as int], final(streams)@[i as int], chacha_below_draw(chacha_state(old(streams)@[i as int]).0,
            chacha_state(old(streams)@[i as int]).1, chacha_state(old(streams)@[i as int]).2, bound).1),
        final(streams)@.len() == old(streams)@.len(),
        forall|j: int| 0 <= j < old(streams)@.len() && j != i ==> final(streams)@[j] == old(streams)@[j],
{
    streams[i].gen_range(0..bound)
}

/// `SliceRandom::shuffle` of `rand` with generator `i` of `streams`: the items are
/// permuted in place by the arrangement named for that generator's state and the number
/// of items, and the generator moves on to the named position; no other generator changes.
#[verifier::external_body]
fn chacha_shuffle<T>(streams: &mut Vec<ChaCha20Rng>, i: usize, items: &mut Vec<T>)
    requires
        i < old(streams)@.len(),
    ensures
        final(items)@.to_multiset() == old(items)@.to_multiset(),
        final(items)@.len() == old(items)@.len(),
        forall|k: int| 0 <= k < old(items)@.len() ==> #[trigger] final(items)@[k] == old(items)@[chacha_shuffle_draw(
            chacha_state(old(streams)@[i as int]).0, chacha_state(old(streams)@[i as int]).1,
            chacha_state(old(streams)@[i as int]).2, old(items)@.len()).0[k]],
        moved_to(old(streams)@[i as int], final(streams)@[i as int], chacha_shuffle_draw(chacha_state(old(streams)@[i as int]).0,
            chacha_state(old(streams)@[i as int]).1, chacha_state(old(streams)@[i as int]).2, old(items)@.len()).1),
        final(streams)@.len() == old(streams)@.len(),
        forall|j: int| 0 <= j < old(streams)@.len() && j != i ==> final(streams)@[j] == old(streams)@[j],
{
    items.shuffle(&mut streams[i]);
}

/// `Rng::gen_range(0..bound)` of `rand` for 64-bit bounds on generator `i` of `streams`:
/// the result is below `bound` and is the draw named for that generator's state, which
/// moves on to the named position; no other generator changes.
#[verifier::external_body]
fn chacha_below_wide(streams: &mut Vec<ChaCha20Rng>, i: usize, bound: u64) -> (r: u64)
    requires
        i < old(streams)@.len(),
        bound > 0,
    ensures
        r < bound,
        r == chacha_below_wide_draw(chacha_state(old(streams)@[i as int]).0, chacha_state(old(streams)@[i as int]).1,
            chacha_state(old(streams)@[i as int]).2, bound).0,
        moved_to(old(streams)@[i as int], final(streams)@[i as int], chacha_below_wide_draw(chacha_state(old(streams)@[i as int]).0,
            chacha_state(old(streams)@[i as int]).1, chacha_state(old(streams)@[i as int]).2, bound).1),
        final(streams)@.len() == old(streams)@.len(),
        forall|j: int| 0 <= j < old(streams)@.len() && j != i ==> final(streams)@[j] == old(streams)@[j],
{
    streams[i].gen_range(0..bound)
}

/// `Rng::gen_range(low..high)` of `rand` for `i16` ranges on generator `i` of `streams`:
/// the result lies in the range and is the draw named for that generator's state, which
/// moves on to the named position; no other generator changes.
#[verifier::external_body]
fn chacha_between(streams: &mut Vec<ChaCha20Rng>, i: usize, low: i16, high: i16) -> (r: i16)
    requires
        i < old(streams)@.len(),
        low < high,
    ensures
        low <= r < high,
        r == chacha_between_draw(chacha_state(old(streams)@[i as int]).0, chacha_state(old(streams)@[i as int]).1,
            chacha_state(old(streams)@[i as int]).2, low, high).0,
        moved_to(old(streams)@[i as int], final(streams)@[i as int], chacha_between_draw(chacha_state(old(streams)@[i as int]).0,
            chacha_state(old(streams)@[i as int]).1, chacha_state(old(streams)@[i as int]).2, low, high).1),
        final(streams)@.len() == old(streams)@.len(),
        forall|j: int| 0 <= j < old(streams)@.len() && j != i ==> final(streams)@[j] == old(streams)@[j],
{
    streams[i].gen_range(low..high)
}

/// `RngCore::next_u64` of `rand_chacha` on generator `i` of `streams`: the draw named for
/// that generator's state, which moves on to the named position; no other generator changes.
#[verifier::external_body]
fn chacha_next(streams: &mut Vec<ChaCha20Rng>, i: usize) -> (r: u64)
    requires
        i < old(streams)@.len(),
    ensures
        r == chacha_next_draw(chacha_state(old(streams)@[i as int]).0, chacha_state(old(streams)@[i as int]).1,
            chacha_state(old(streams)@[i as int]).2).0,
        moved_to(old(streams)@[i as int], final(streams)@[i as int], chacha_next_draw(chacha_state(old(streams)@[i as int]).0,
            chacha_state(old(streams)@[i as int]).1, chacha_state(old(streams)@[i as int]).2).1),
        final(streams)@.len() == old(streams)@.len(),
        forall|j: int| 0 <= j < old(streams)@.len() && j != i ==> final(streams)@[j] == old(streams)@[j],
{
    streams[i].next_u64()
}

/// A master seed with lazily created, independently advancing named streams.
#[derive(Debug, Clone)]
pub struct SimRng {
    seed: u64,
    names: Vec<String>,
    streams: Vec<ChaCha20Rng>,
}

/// `b` is `a` with only the stream `name` moved, to position `pos`: a sound generator of the
/// same master seed whose other streams stand where they stood.
pub open spec fn moved_only(a: SimRng, b: SimRng, name: Seq<char>, pos: (Seq<u8>, u64, u128)) -> bool {
    &&& b.wf()
    &&& b.master() == a.master()
    &&& b.position(name) == pos
    &&& forall|n: Seq<char>| n != name ==> #[trigger] b.position(n) == a.position(n)
}

impl SimRng {
    /// Names and generators pair up, and no name occurs twice.
    pub closed spec fn wf(self) -> bool {
        &&& self.names@.len() == self.streams@.len()
        &&& forall|i: int, j: int|
            0 <= i < self.names@.len() && 0 <= j < self.names@.len() && i != j
                ==> #[trigger] self.names@[i]@ != #[trigger] self.names@[j]@
    }

    /// Two generators with the same master seed start each stream they have not yet used
    /// at the same place, so the same calls on that stream draw the same values.
    pub proof fn lemma_same_seed_same_start(a: SimRng, b: SimRng, name: Seq<char>)
        requires
            a.master() == b.master(),
            !a.has_stream(name),
            !b.has_stream(name),
        ensures
            a.position(name) == b.position(name),
    {
    }

    /// The master seed.
    pub closed spec fn master(self) -> u64 {
        self.seed
    }

    /// Whether the stream `name` has been created.
    pub closed spec fn has_stream(self, name: Seq<char>) -> bool {
        exists|i: int| 0 <= i < self.names@.len() && #[trigger] self.names@[i]@ == name
    }

    /// The current generator of stream `name` (meaningful when it exists).
    pub closed spec fn stream_state(self, name: Seq<char>) -> ChaCha20Rng {
        self.streams@[choose|i: int| 0 <= i < self.names@.len() && #[trigger] self.names@[i]@ == name]
    }

    /// Where the stream `name` stands: the key, stream number and word position of its
    /// generator, or, before it is first used, the start of the stream keyed by the master
    /// seed and the name's UTF-8 bytes.
    pub closed spec fn position(self, name: Seq<char>) -> (Seq<u8>, u64, u128) {
        if self.has_stream(name) {
            chacha_state(self.stream_state(name))
        } else {
            (stream_key(self.seed, vstd::utf8::encode_utf8(name)), 0u64, 0u128)
        }
    }

    /// A generator with no streams yet: every stream starts at word 0 of the key made from
    /// `seed` and the stream's name.
    pub fn new(seed: u64) -> (r: Self)
        ensures
            r.wf(),
            r.master() == seed,
            forall|n: Seq<char>| !r.has_stream(n),
            forall|n: Seq<char>| #[trigger] r.position(n) == (stream_key(seed, vstd::utf8::encode_utf8(n)), 0u64, 0u128),
    {
        SimRng { seed, names: Vec::new(), streams: Vec::new() }
    }

    proof fn lemma_moved(mid: SimRng, fin: SimRng, i: int, name: Seq<char>)
        requires
            mid.wf(),
            fin.names == mid.names,
            fin.seed == mid.seed,
            0 <= i < mid.names@.len(),
            mid.names@[i]@ == name,
            fin.streams@.len() == mid.streams@.len(),
            forall|j: int| 0 <= j < mid.streams@.len() && j != i ==> fin.streams@[j] == mid.streams@[j],
        ensures
            fin.wf(),
            fin.position(name) == chacha_state(fin.streams@[i]),
            mid.position(name) == chacha_state(mid.streams@[i]),
            forall|n: Seq<char>| n != name ==> #[trigger] fin.position(n) == mid.position(n),
            forall|n: Seq<char>| #[trigger] fin.has_stream(n) == mid.has_stream(n),
    {
        assert(mid.has_stream(name));
        let j = choose|j: int| 0 <= j < mid.names@.len() && #[trigger] mid.names@[j]@ == name;
        assert(j == i);
        assert forall|n: Seq<char>| n != name implies #[trigger] fin.position(n) == mid.position(n) by {
            if mid.has_stream(n) {
                let k = choose|k: int| 0 <= k < mid.names@.len() && #[trigger] mid.names@[k]@ == n;
                assert(k != i);
                assert(fin.has_stream(n));
            }
        }
    }

    /// The master seed.
    pub fn seed(&self) -> (r: u64)
        ensures
            r == self.master(),
    {
        self.seed
    }

    /// Position of `name` among the streams, creating it from its key when absent.
    fn stream_index(&mut self, name: &str) -> (r: usize)
        requires
            old(self).wf(),
        ensures
            final(self).wf(),
            final(self).master() == old(self).master(),
            r < final(self).names@.len(),
            final(self).names@[r as int]@ == name@,
            final(self).has_stream(name@),
            forall|n: Seq<char>| #[trigger] old(self).has_stream(n) ==> final(self).has_stream(n),
            forall|n: Seq<char>| #[trigger] final(self).has_stream(n) ==> old(self).has_stream(n) || n == name@,
            forall|n: Seq<char>| old(self).has_stream(n) ==> #[trigger] final(self).stream_state(n) == old(self).stream_state(n),
            forall|n: Seq<char>| #[trigger] final(self).position(n) == old(self).position(n),
            chacha_state(final(self).streams@[r as int]) == old(self).position(name@),
    {
        let ghost before = *self;
        let mut i: usize = 0;
        while i < self.names.len()
            invariant
                i <= self.names@.len(),
                *self == before,
                before.wf(),
                forall|j: int| 0 <= j < i ==> self.names@[j]@ != name@,
            decreases self.names@.len() - i,
        {
            if crate::text::same(self.names[i].as_str(), name) {
                proof {
                    assert(self.has_stream(name@));
                    let j = choose|j: int| 0 <= j < self.names@.len() && #[trigger] self.names@[j]@ == name@;
                    assert(j == i);
                }
                return i;
            }
            i = i + 1;
        }
        let bytes = name.as_bytes();
        let mut key: Vec<u8> = Vec::new();
        let mut k: usize = 0;
        while k < 32
            invariant
                k <= 32,
                key@.len() == k,
                forall|j: int| 0 <= j < k ==> #[trigger] key@[j] == stream_key(self.seed, bytes@)[j],
            decreases 32 - k,
        {
            let b: u8 = if k < 8 {
                #[verifier::truncate] (((self.seed >> (8 * (k as u64))) & 0xff) as u8)
            } else if k - 8 < bytes.len() && k - 8 < 24 {
                bytes[k - 8]
            } else {
                0u8
            };
            key.push(b);
            k = k + 1;
        }
        proof {
            assert(key@ =~= stream_key(self.seed, vstd::utf8::encode_utf8(name@)));
            assert(!before.has_stream(name@));
        }
        let rng = chacha_from_key(&key);
        self.names.push(name.to_owned());
        self.streams.push(rng);
        let r = self.names.len() - 1;
        proof {
            assert(self.names@[r as int]@ == name@);
            assert(self.has_stream(name@));
            assert forall|n: Seq<char>| #[trigger] self.has_stream(n) implies before.has_stream(n) || n == name@ by {
                let j = choose|j: int| 0 <= j < self.names@.len() && #[trigger] self.names@[j]@ == n;
                if j < before.names@.len() {
                    assert(before.names@[j]@ == n);
                }
            }
            assert forall|n: Seq<char>| #[trigger] before.has_stream(n) implies self.has_stream(n) && self.stream_state(n) == before.stream_state(n) by {
                let j = choose|j: int| 0 <= j < before.names@.len() && #[trigger] before.names@[j]@ == n;
                assert(self.names@[j]@ == n);
                let j2 = choose|j2: int| 0 <= j2 < self.names@.len() && #[trigger] self.names@[j2]@ == n;
                assert(j2 == j);
            }
            assert forall|n: Seq<char>| #[trigger] self.position(n) == before.position(n) by {
                if n == name@ {
                    let j2 = choose|j2: int| 0 <= j2 < self.names@.len() && #[trigger] self.names@[j2]@ == n;
                    assert(j2 == r);
                } else if before.has_stream(n) {
                    assert(self.stream_state(n) == before.stream_state(n));
                } else {
                    assert(!self.has_stream(n));
                }
            }
        }
        r
    }

    /// Permutes `items` with the stream `name`. Only that stream advances.
    pub fn shuffle<T>(&mut self, name: &str, items: &mut Vec<T>)
        requires
            old(self).wf(),
        ensures
            final(items)@.to_multiset() == old(items)@.to_multiset(),
            final(items)@.len() == old(items)@.len(),
            final(self).wf(),
            final(self).master() == old(self).master(),
            final(self).has_stream(name@),
            forall|n: Seq<char>| #[trigger] old(self).has_stream(n) ==> final(self).has_stream(n),
            forall|n: Seq<char>| n != name@ && old(self).has_stream(n) ==> #[trigger] final(self).stream_state(n) == old(self).stream_state(n),
            final(self).position(name@) == advanced(old(self).position(name@), chacha_shuffle_draw(old(self).position(name@).0, old(self).position(name@).1, old(self).position(name@).2, old(items)@.len()).1),
            forall|n: Seq<char>| n != name@ ==> #[trigger] final(self).position(n) == old(self).position(n),
    {
        let ghost before = *self;
        let i = self.stream_index(name);
        let ghost mid = *self;
        chacha_shuffle(&mut self.streams, i, items);
        proof {
            Self::lemma_moved(mid, *self, i as int, name@);
            assert forall|n: Seq<char>| #[trigger] mid.has_stream(n) implies self.has_stream(n) by {
                let j = choose|j: int| 0 <= j < mid.names@.len() && #[trigger] mid.names@[j]@ == n;
                assert(self.names@[j]@ == n);
            }
            assert forall|n: Seq<char>| n != name@ && before.has_stream(n) implies #[trigger] self.stream_state(n) == before.stream_state(n) by {
                let j = choose|j: int| 0 <= j < mid.names@.len() && #[trigger] mid.names@[j]@ == n;
                assert(j != i);
                assert(mid.stream_state(n) == mid.streams@[j]);
            }
        }
    }

    /// A roll in `0..bound` from the stream `name`, for 64-bit bounds. Only that stream advances.
    pub fn roll_wide(&mut self, name: &str, bound: u64) -> (r: u64)
        requires
            old(self).wf(),
            bound > 0,
        ensures
            r < bound,
            final(self).wf(),
            final(self).master() == old(self).master(),
            final(self).has_stream(name@),
            forall|n: Seq<char>| #[trigger] old(self).has_stream(n) ==> final(self).has_stream(n),
            forall|n: Seq<char>| n != name@ && old(self).has_stream(n) ==> #[trigger] final(self).stream_state(n) == old(self).stream_state(n),
            r == chacha_below_wide_draw(old(self).position(name@).0, old(self).position(name@).1, old(self).position(name@).2, bound).0,
            final(self).position(name@) == advanced(old(self).position(name@), chacha_below_wide_draw(old(self).position(name@).0, old(self).position(name@).1, old(self).position(name@).2, bound).1),
            forall|n: Seq<char>| n != name@ ==> #[trigger] final(self).position(n) == old(self).position(n),
    {
        let ghost before = *self;
        let i = self.stream_index(name);
        let ghost mid = *self;
        let r = chacha_below_wide(&mut self.streams, i, bound);
        proof {
            Self::lemma_moved(mid, *self, i as int, name@);
            assert forall|n: Seq<char>| #[trigger] mid.has_stream(n) implies self.has_stream(n) by {
                let j = choose|j: int| 0 <= j < mid.names@.len() && #[trigger] mid.names@[j]@ == n;
                assert(self.names@[j]@ == n);
            }
            assert forall|n: Seq<char>| n != name@ && before.has_stream(n) implies #[trigger] self.stream_state(n) == before.stream_state(n) by {
                let j = choose|j: int| 0 <= j < mid.names@.len() && #[trigger] mid.names@[j]@ == n;
                assert(j != i);
                assert(mid.stream_state(n) == mid.streams@[j]);
            }
        }
        r
    }

    /// A yes-or-no draw from the stream `name` that comes out yes for a draw of 64 bits
    /// below `threshold`: the way `Rng::gen_bool` of `rand` decides, with the threshold
    /// its chance times 2^64. Only that stream advances.
    pub fn chance(&mut self, name: &str, threshold: u64) -> (r: bool)
        requires
            old(self).wf(),
        ensures
            final(self).wf(),
            final(self).master() == old(self).master(),
            final(self).has_stream(name@),
            forall|n: Seq<char>| #[trigger] old(self).has_stream(n) ==> final(self).has_stream(n),
            forall|n: Seq<char>| n != name@ && old(self).has_stream(n) ==> #[trigger] final(self).stream_state(n) == old(self).stream_state(n),
            r == (chacha_next_draw(old(self).position(name@).0, old(self).position(name@).1, old(self).position(name@).2).0 < threshold),
            final(self).position(name@) == advanced(old(self).position(name@), chacha_next_draw(old(self).position(name@).0, old(self).position(name@).1, old(self).position(name@).2).1),
            forall|n: Seq<char>| n != name@ ==> #[trigger] final(self).position(n) == old(self).position(n),
    {
        let ghost before = *self;
        let i = self.stream_index(name);
        let ghost mid = *self;
        let v = chacha_next(&mut self.streams, i);
        proof {
            Self::lemma_moved(mid, *self, i as int, name@);
            assert forall|n: Seq<char>| #[trigger] mid.has_stream(n) implies self.has_stream(n) by {
                let j = choose|j: int| 0 <= j < mid.names@.len() && #[trigger] mid.names@[j]@ == n;
                assert(self.names@[j]@ == n);
            }
            assert forall|n: Seq<char>| n != name@ && before.has_stream(n) implies #[trigger] self.stream_state(n) == before.stream_state(n) by {
                let j = choose|j: int| 0 <= j < mid.names@.len() && #[trigger] mid.names@[j]@ == n;
                assert(j != i);
                assert(mid.stream_state(n) == mid.streams@[j]);
            }
        }
        v < threshold
    }

    /// A roll in `low..high` from the stream `name`. Only that stream advances.
    pub fn roll_between(&mut self, name: &str, low: i16, high: i16) -> (r: i16)
        requires
            old(self).wf(),
            low < high,
        ensures
            low <= r < high,
            final(self).wf(),
            final(self).master() == old(self).master(),
            final(self).has_stream(name@),
            forall|n: Seq<char>| #[trigger] old(self).has_stream(n) ==> final(self).has_stream(n),
            forall|n: Seq<char>| n != name@ && old(self).has_stream(n) ==> #[trigger] final(self).stream_state(n) == old(self).stream_state(n),
            r == chacha_between_draw(old(self).position(name@).0, old(self).position(name@).1, old(self).position(name@).2, low, high).0,
            final(self).position(name@) == advanced(old(self).position(name@), chacha_between_draw(old(self).position(name@).0, old(self).position(name@).1, old(self).position(name@).2, low, high).1),
            forall|n: Seq<char>| n != name@ ==> #[trigger] final(self).position(n) == old(self).position(n),
    {
        let ghost before = *self;
        let i = self.stream_index(name);
        let ghost mid = *self;
        let r = chacha_between(&mut self.streams, i, low, high);
        proof {
            Self::lemma_moved(mid, *self, i as int, name@);
            assert forall|n: Seq<char>| #[trigger] mid.has_stream(n) implies self.has_stream(n) by {
                let j = choose|j: int| 0 <= j < mid.names@.len() && #[trigger] mid.names@[j]@ == n;
                assert(self.names@[j]@ == n);
            }
            assert forall|n: Seq<char>| n != name@ && before.has_stream(n) implies #[trigger] self.stream_state(n) == before.stream_state(n) by {
                let j = choose|j: int| 0 <= j < mid.names@.len() && #[trigger] mid.names@[j]@ == n;
                assert(j != i);
                assert(mid.stream_state(n) == mid.streams@[j]);
            }
        }
        r
    }

    /// A roll in `0..bound` from the stream `name`. Only that stream advances.
    pub fn roll(&mut self, name: &str, bound: u32) -> (r: u32)
        requires
            old(self).wf(),
            bound > 0,
        ensures
            r < bound,
            final(self).wf(),
            final(self).master() == old(self).master(),
            final(self).has_stream(name@),
            forall|n: Seq<char>| #[trigger] old(self).has_stream(n) ==> final(self).has_stream(n),
            forall|n: Seq<char>| n != name@ && old(self).has_stream(n) ==> #[trigger] final(self).stream_state(n) == old(self).stream_state(n),
            r == chacha_below_draw(old(self).position(name@).0, old(self).position(name@).1, old(self).position(name@).2, bound).0,
            final(self).position(name@) == advanced(old(self).position(name@), chacha_below_draw(old(self).position(name@).0, old(self).position(name@).1, old(self).position(name@).2, bound).1),
            forall|n: Seq<char>| n != name@ ==> #[trigger] final(self).position(n) == old(self).position(n),
    {
        let ghost before = *self;
        let i = self.stream_index(name);
        let ghost mid = *self;
        let r = chacha_below(&mut self.streams, i, bound);
        proof {
            Self::lemma_moved(mid, *self, i as int, name@);
            assert forall|n: Seq<char>| #[trigger] mid.has_stream(n) implies self.has_stream(n) by {
                let j = choose|j: int| 0 <= j < mid.names@.len() && #[trigger] mid.names@[j]@ == n;
                assert(self.names@[j]@ == n);
            }
            assert forall|n: Seq<char>| n != name@ && before.has_stream(n) implies #[trigger] self.stream_state(n) == before.stream_state(n) by {
                let j = choose|j: int| 0 <= j < mid.names@.len() && #[trigger] mid.names@[j]@ == n;
                assert(j != i);
                assert(mid.stream_state(n) == mid.streams@[j]);
            }
        }
        r
    }
}

} // verus!
