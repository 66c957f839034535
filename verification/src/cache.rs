//! The frame cache's identity key. Extracted frames are reusable only when
//! the input path, the requested dimensions and the frame rate all match, so
//! those are hashed into one small id that is stored beside the cache. The
//! hash is FNV-1a over the key's bytes, fully specified, so the id is the
//! same on every run and machine.

use vstd::prelude::*;
use vstd::utf8::encode_utf8;
use vstd::wrapping::u64_specs;

verus! {

/// The FNV-1a 64-bit offset basis.
pub const FNV_OFFSET: u64 = 0xcbf29ce484222325;

/// The FNV-1a 64-bit prime.
pub const FNV_PRIME: u64 = 0x100000001b3;

/// One FNV-1a round: fold one byte into the running hash.
pub open spec fn fnv_step(h: u64, b: u8) -> u64 {
    u64_specs::wrapping_mul(h ^ (b as u64), FNV_PRIME)
}

/// FNV-1a over a byte string, folding left from the front.
pub open spec fn fnv_bytes(h: u64, s: Seq<u8>) -> u64
    decreases s.len(),
{
    if s.len() == 0 {
        h
    } else {
        fnv_bytes(fnv_step(h, s[0]), s.drop_first())
    }
}

/// Folding a concatenation folds its parts in order.
proof fn lemma_fnv_append(h: u64, a: Seq<u8>, b: Seq<u8>)
    ensures
        fnv_bytes(h, a + b) == fnv_bytes(fnv_bytes(h, a), b),
    decreases a.len(),
{
    if a.len() == 0 {
        assert(a + b =~= b);
    } else {
        assert((a + b).drop_first() =~= a.drop_first() + b);
        lemma_fnv_append(fnv_step(h, a[0]), a.drop_first(), b);
    }
}

/// The two's-complement bits of a 32-bit signed value, as a nonnegative
/// number.
pub open spec fn i32_bits(x: int) -> int {
    if x >= 0 {
        x
    } else {
        x + 0x100000000
    }
}

/// A 32-bit value as four bytes, least significant first.
pub open spec fn le_bytes32(v: int) -> Seq<u8> {
    seq![
        (v % 256) as u8,
        (v / 256 % 256) as u8,
        (v / 65536 % 256) as u8,
        (v / 16777216 % 256) as u8,
    ]
}

/// A 64-bit value as eight bytes, least significant first.
pub open spec fn le_bytes64(v: u64) -> Seq<u8> {
    le_bytes32(v as int % 0x100000000) + le_bytes32(v as int / 0x100000000)
}

/// The byte string a cache key denotes: the input path in UTF-8, then width,
/// height and the frame rate in microframes per second, least significant
/// byte first.
pub open spec fn cache_key_bytes(input: Seq<char>, width: int, height: int, fps: u64) -> Seq<u8> {
    encode_utf8(input) + le_bytes32(i32_bits(width)) + le_bytes32(i32_bits(height)) + le_bytes64(
        fps,
    )
}

/// The cache id of a key: FNV-1a over the key's bytes.
pub open spec fn cache_id_of(input: Seq<char>, width: int, height: int, fps: u64) -> u64 {
    fnv_bytes(FNV_OFFSET, cache_key_bytes(input, width, height, fps))
}

/// The identity of one extraction: input path, requested dimensions, and the
/// frame rate in microframes per second. Cached frames are valid only for an
/// identical key.
pub struct CacheKey {
    input: String,
    width: i32,
    height: i32,
    fps: u64,
}

impl CacheKey {
    pub closed spec fn input_of(self) -> Seq<char> {
        self.input@
    }

    pub closed spec fn width_of(self) -> int {
        self.width as int
    }

    pub closed spec fn height_of(self) -> int {
        self.height as int
    }

    pub closed spec fn fps_of(self) -> u64 {
        self.fps
    }

    /// Builds a key; the frame rate is given in microframes per second.
    pub fn new(input: String, width: i32, height: i32, fps_micros: u64) -> (r: CacheKey)
        ensures
            r.input_of() == input@,
            r.width_of() == width as int,
            r.height_of() == height as int,
            r.fps_of() == fps_micros,
    {
        CacheKey { input, width, height, fps: fps_micros }
    }
}

/// Folds a byte slice into the running hash.
fn fnv_slice(h0: u64, bytes: &[u8]) -> (r: u64)
    ensures
        r == fnv_bytes(h0, bytes@),
{
    let mut h = h0;
    let mut i: usize = 0;
    proof {
        assert(bytes@.skip(0) =~= bytes@);
    }
    while i < bytes.len()
        invariant
            i <= bytes@.len(),
            fnv_bytes(h, bytes@.skip(i as int)) == fnv_bytes(h0, bytes@),
        decreases bytes@.len() - i,
    {
        proof {
            assert(bytes@.skip(i as int)[0] == bytes@[i as int]);
            assert(bytes@.skip(i as int).drop_first() =~= bytes@.skip(i + 1));
        }
        h = (h ^ (bytes[i] as u64)).wrapping_mul(FNV_PRIME);
        i = i + 1;
    }
    proof {
        assert(bytes@.skip(bytes@.len() as int) =~= Seq::<u8>::empty());
    }
    h
}

/// Folds a 32-bit value into the running hash, least significant byte first.
fn fnv_u32(h0: u64, v: u32) -> (r: u64)
    ensures
        r == fnv_bytes(h0, le_bytes32(v as int)),
{
    proof {
        reveal_with_fuel(fnv_bytes, 6);
    }
    let b0 = (v % 256) as u8;
    let b1 = (v / 256 % 256) as u8;
    let b2 = (v / 65536 % 256) as u8;
    let b3 = (v / 16777216 % 256) as u8;
    let mut h = h0;
    h = (h ^ (b0 as u64)).wrapping_mul(FNV_PRIME);
    h = (h ^ (b1 as u64)).wrapping_mul(FNV_PRIME);
    h = (h ^ (b2 as u64)).wrapping_mul(FNV_PRIME);
    h = (h ^ (b3 as u64)).wrapping_mul(FNV_PRIME);
    proof {
        let s = le_bytes32(v as int);
        assert(s.drop_first() =~= seq![s[1], s[2], s[3]]);
        assert(s.drop_first().drop_first() =~= seq![s[2], s[3]]);
        assert(s.drop_first().drop_first().drop_first() =~= seq![s[3]]);
        assert(s.drop_first().drop_first().drop_first().drop_first() =~= Seq::<u8>::empty());
    }
    h
}

/// The bits of a signed 32-bit value, for hashing.
fn i32_bits_exec(x: i32) -> (r: u32)
    ensures
        r as int == i32_bits(x as int),
{
    if x >= 0 {
        x as u32
    } else {
        ((x as i64) + 0x100000000) as u32
    }
}

/// The stable id of a cache key: FNV-1a over the input path's UTF-8 bytes and
/// the little-endian bytes of width, height and frame rate. Equal keys give
/// equal ids on every run.
pub fn gen_cache_id(key: &CacheKey) -> (r: u64)
    ensures
        r == cache_id_of(key.input_of(), key.width_of(), key.height_of(), key.fps_of()),
{
    let ghost all = cache_key_bytes(key.input_of(), key.width_of(), key.height_of(), key.fps_of());
    let mut h = FNV_OFFSET;
    h = fnv_slice(h, key.input.as_str().as_bytes());
    h = fnv_u32(h, i32_bits_exec(key.width));
    h = fnv_u32(h, i32_bits_exec(key.height));
    let lo = (key.fps % 0x100000000) as u32;
    let hi = (key.fps / 0x100000000) as u32;
    h = fnv_u32(h, lo);
    h = fnv_u32(h, hi);
    proof {
        let part1 = encode_utf8(key.input_of());
        let part2 = le_bytes32(i32_bits(key.width_of()));
        let part3 = le_bytes32(i32_bits(key.height_of()));
        let part4a = le_bytes32(key.fps_of() as int % 0x100000000);
        let part4b = le_bytes32(key.fps_of() as int / 0x100000000);
        lemma_fnv_append(FNV_OFFSET, part1, part2 + part3 + part4a + part4b);
        lemma_fnv_append(fnv_bytes(FNV_OFFSET, part1), part2, part3 + part4a + part4b);
        lemma_fnv_append(fnv_bytes(fnv_bytes(FNV_OFFSET, part1), part2), part3, part4a + part4b);
        lemma_fnv_append(
            fnv_bytes(fnv_bytes(fnv_bytes(FNV_OFFSET, part1), part2), part3),
            part4a,
            part4b,
        );
        assert(all =~= part1 + (part2 + part3 + part4a + part4b));
        assert(part2 + part3 + part4a + part4b =~= part2 + (part3 + part4a + part4b));
        assert(part3 + part4a + part4b =~= part3 + (part4a + part4b));
    }
    h
}

} // verus!
