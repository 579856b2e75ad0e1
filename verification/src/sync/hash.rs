//! Hashing utilities for sync operations: a rolling checksum for delta
//! sync and chunk lookup tables.
use vstd::prelude::*;
use std::collections::HashMap;
use crate::text::{hex_fixed, hex_str};
use crate::hash::hash::{
    blake3_digest,
    bytes_to_hex,
    digest,
    hex_of_bytes,
    lemma_hex_of_bytes_len,
    HashAlgorithm,
};

verus! {

/// Sum of the bytes of `s`, as a mathematical integer.
pub open spec fn byte_sum(s: Seq<u8>) -> int
    decreases s.len(),
{
    if s.len() == 0 {
        0
    } else {
        byte_sum(s.drop_last()) + s.last()
    }
}

/// Sum of `(ws - i) * s[i]` over the positions `i` of `s`.
pub open spec fn weighted_sum(ws: int, s: Seq<u8>) -> int
    decreases s.len(),
{
    if s.len() == 0 {
        0
    } else {
        weighted_sum(ws, s.drop_last()) + (ws - (s.len() - 1)) * s.last()
    }
}

/// The `a` component of the checksum of a window.
pub open spec fn checksum_a(w: Seq<u8>) -> u32 {
    (byte_sum(w) % 0x1_0000_0000) as u32
}

/// The `b` component of the checksum of a window for window size `ws`.
pub open spec fn checksum_b(ws: int, w: Seq<u8>) -> u32 {
    (weighted_sum(ws, w) % 0x1_0000_0000) as u32
}

/// The packed 32-bit checksum value: the low 16 bits of `b` above the low
/// 16 bits of `a`.
pub open spec fn packed_value(a: u32, b: u32) -> u32 {
    ((b % 0x10000) * 0x10000 + a % 0x10000) as u32
}

/// The bytes that `init` keeps: at most `ws` leading bytes of `data`.
pub open spec fn init_window(ws: int, data: Seq<u8>) -> Seq<u8> {
    if data.len() <= ws {
        data
    } else {
        data.take(ws)
    }
}

/// No product `(ws - i) * data[i]` computed by `init` leaves the `u32` range.
pub open spec fn init_products_fit(ws: usize, data: Seq<u8>) -> bool {
    forall|i: int|
        0 <= i < init_window(ws as int, data).len() ==> ((ws - i) % 0x1_0000_0000) * (
        #[trigger] data[i]) <= u32::MAX
}

/// The product `ws * old_byte` computed by `roll` stays in the `u32` range.
pub open spec fn roll_product_fits(ws: usize, old_byte: u8) -> bool {
    (ws as int % 0x1_0000_0000) * old_byte <= u32::MAX
}

/// Rolling checksum for delta sync (Adler32-like).
#[derive(Debug, Clone)]
pub struct RollingChecksum {
    a: u32,
    b: u32,
    window_size: usize,
    buffer: Vec<u8>,
}

proof fn lemma_byte_sum_first(s: Seq<u8>)
    requires
        s.len() > 0,
    ensures
        byte_sum(s) == s[0] + byte_sum(s.drop_first()),
    decreases s.len(),
{
    if s.len() > 1 {
        lemma_byte_sum_first(s.drop_last());
        assert(s.drop_last().drop_first() =~= s.drop_first().drop_last());
    } else {
        assert(s.drop_last() =~= Seq::<u8>::empty());
        assert(s.drop_first() =~= Seq::<u8>::empty());
    }
}

proof fn lemma_weighted_shift(ws: int, s: Seq<u8>)
    ensures
        weighted_sum(ws - 1, s) == weighted_sum(ws, s) - byte_sum(s),
    decreases s.len(),
{
    if s.len() > 0 {
        lemma_weighted_shift(ws, s.drop_last());
        let k = s.len() - 1;
        let x = s.last() as int;
        assert((ws - 1 - k) * x == (ws - k) * x - x) by (nonlinear_arith);
    }
}

proof fn lemma_weighted_first(ws: int, s: Seq<u8>)
    requires
        s.len() > 0,
    ensures
        weighted_sum(ws, s) == ws * s[0] + weighted_sum(ws - 1, s.drop_first()),
    decreases s.len(),
{
    if s.len() > 1 {
        lemma_weighted_first(ws, s.drop_last());
        let t = s.drop_first();
        assert(s.drop_last().drop_first() =~= t.drop_last());
        let k = s.len() - 1;
        let x = s.last() as int;
        assert(t.last() == x);
        assert(weighted_sum(ws - 1, t) == weighted_sum(ws - 1, t.drop_last()) + (ws - 1 - (
        t.len() - 1)) * t.last());
        assert(s.drop_last()[0] == s[0]);
        let p = weighted_sum(ws, s.drop_last());
        let q = weighted_sum(ws - 1, t.drop_last());
        let r = weighted_sum(ws - 1, t);
        let f = s[0] as int;
        assert(weighted_sum(ws, s) == p + (ws - k) * x);
        assert(p == ws * f + q);
        assert(r == q + (ws - 1 - (t.len() - 1)) * x);
        assert(t.len() == k);
        assert(p + (ws - k) * x == ws * f + r) by (nonlinear_arith)
            requires
                p == ws * f + q,
                r == q + (ws - 1 - (k - 1)) * x,
        ;
    } else {
        assert(s.drop_last() =~= Seq::<u8>::empty());
        assert(s.drop_first() =~= Seq::<u8>::empty());
        let x = s[0] as int;
        assert(s.last() == x);
        assert(weighted_sum(ws, s.drop_last()) == 0);
        assert(weighted_sum(ws - 1, s.drop_first()) == 0);
        assert(weighted_sum(ws, s) == 0 + (ws - 0) * x);
        assert((ws - 0) * x == ws * x) by (nonlinear_arith);
    }
}

proof fn lemma_push(ws: int, s: Seq<u8>, c: u8)
    ensures
        byte_sum(s.push(c)) == byte_sum(s) + c,
        weighted_sum(ws, s.push(c)) == weighted_sum(ws, s) + (ws - s.len()) * c,
{
    assert(s.push(c).drop_last() =~= s);
}

/// Rolling the window of a full window keeps the sums of the shifted window:
/// removing the first byte and appending `c` gives the sums that a fresh
/// computation over the new window gives, before any reduction modulo 2^32.
pub proof fn lemma_roll_sums(ws: int, w: Seq<u8>, c: u8)
    requires
        w.len() == ws,
        ws > 0,
    ensures
        byte_sum(w.drop_first().push(c)) == byte_sum(w) - w[0] + c,
        weighted_sum(ws, w.drop_first().push(c)) == weighted_sum(ws, w) - ws * w[0] + byte_sum(
            w.drop_first().push(c),
        ),
{
    let t = w.drop_first();
    lemma_byte_sum_first(w);
    lemma_push(ws, t, c);
    lemma_weighted_first(ws, w);
    lemma_weighted_shift(ws, t);
    assert((ws - t.len()) * c == c) by (nonlinear_arith)
        requires
            t.len() == ws - 1,
    ;
}

proof fn lemma_mod_add(x: int, y: int)
    ensures
        ((x % 0x1_0000_0000) + y) % 0x1_0000_0000 == (x + y) % 0x1_0000_0000,
{
    vstd::arithmetic::div_mod::lemma_add_mod_noop(x, y, 0x1_0000_0000);
    vstd::arithmetic::div_mod::lemma_mod_twice(x, 0x1_0000_0000);
    vstd::arithmetic::div_mod::lemma_mod_twice(y, 0x1_0000_0000);
    vstd::arithmetic::div_mod::lemma_add_mod_noop(x % 0x1_0000_0000, y, 0x1_0000_0000);
}

/// Rolling a checksum over a full window gives the checksum of the shifted
/// window: `roll(w[0], c)` applied to the checksum of `w` equals the
/// checksum of `w[1..] + [c]` computed from scratch.
pub proof fn lemma_roll_equals_init(ws: usize, w: Seq<u8>, c: u8)
    requires
        w.len() == ws,
        ws > 0,
    ensures
        ({
            let a1 = ((checksum_a(w) - w[0] + c) % 0x1_0000_0000) as u32;
            let b1 = ((checksum_b(ws as int, w) - (ws as int % 0x1_0000_0000) * w[0] + a1)
                % 0x1_0000_0000) as u32;
            &&& a1 == checksum_a(w.drop_first().push(c))
            &&& b1 == checksum_b(ws as int, w.drop_first().push(c))
        }),
{
    let m: int = 0x1_0000_0000;
    let w1 = w.drop_first().push(c);
    lemma_roll_sums(ws as int, w, c);
    lemma_mod_add(byte_sum(w), c - w[0]);
    let a1 = ((checksum_a(w) - w[0] + c) % m) as u32;
    assert(a1 == byte_sum(w1) % m);
    let ws_m = ws as int % m;
    assert(ws_m * w[0] % m == (ws as int * w[0]) % m) by {
        vstd::arithmetic::div_mod::lemma_mul_mod_noop_left(ws as int, w[0] as int, m);
    }
    let d = a1 - ws_m * w[0];
    lemma_mod_add(weighted_sum(ws as int, w), d);
    // (W - ws_m*w0 + a1) % m == (W - ws*w0 + B) % m
    let x = weighted_sum(ws as int, w) - ws_m * w[0] + a1;
    let y = weighted_sum(ws as int, w) - ws * w[0] + byte_sum(w1);
    assert((ws as int * w[0]) - ws_m * w[0] == (ws as int - ws_m) * w[0]) by (nonlinear_arith);
    assert((ws as int - ws_m) % m == 0) by {
        vstd::arithmetic::div_mod::lemma_fundamental_div_mod(ws as int, m);
        vstd::arithmetic::div_mod::lemma_mod_multiples_basic(ws as int / m, m);
    }
    assert(((ws as int - ws_m) * w[0]) % m == 0) by {
        vstd::arithmetic::div_mod::lemma_mul_mod_noop_left(ws as int - ws_m, w[0] as int, m);
    }
    assert((byte_sum(w1) - a1) % m == 0) by {
        vstd::arithmetic::div_mod::lemma_fundamental_div_mod(byte_sum(w1), m);
        vstd::arithmetic::div_mod::lemma_mod_multiples_basic(byte_sum(w1) / m, m);
    }
    assert(y - x == (ws as int - ws_m) * w[0] * (-1) + (byte_sum(w1) - a1)) by (nonlinear_arith)
        requires
            x == weighted_sum(ws as int, w) - ws_m * w[0] + a1,
            y == weighted_sum(ws as int, w) - ws * w[0] + byte_sum(w1),
    ;
    assert(x % m == y % m) by {
        vstd::arithmetic::div_mod::lemma_mul_mod_noop_right(-1, (ws as int - ws_m) * w[0], m);
        vstd::arithmetic::div_mod::lemma_add_mod_noop(
            (ws as int - ws_m) * w[0] * (-1),
            byte_sum(w1) - a1,
            m,
        );
        vstd::arithmetic::div_mod::lemma_add_mod_noop(x, y - x, m);
    }
}

proof fn lemma_wrapping_add(x: u32, y: u32)
    ensures
        x.wrapping_add(y) as int == (x + y) % 0x1_0000_0000,
{
}

proof fn lemma_wrapping_sub(x: u32, y: u32)
    ensures
        x.wrapping_sub(y) as int == (x - y) % 0x1_0000_0000,
{
}

proof fn lemma_usize_as_u32(x: usize)
    ensures
        x as u32 as int == x as int % 0x1_0000_0000,
{
    assert((x as u32) as u64 == (x as u64) % 0x1_0000_0000u64) by (bit_vector);
}

impl RollingChecksum {
    /// The running byte sum component.
    pub closed spec fn a(&self) -> u32 {
        self.a
    }

    /// The running weighted sum component.
    pub closed spec fn b(&self) -> u32 {
        self.b
    }

    /// The window size the checksum was created with.
    pub closed spec fn window_size(&self) -> usize {
        self.window_size
    }

    /// The bytes currently held in the window.
    pub closed spec fn window(&self) -> Seq<u8> {
        self.buffer@
    }

    /// The checksum of the window `w` for window size `ws`, as a state.
    pub open spec fn holds_checksum_of(&self, w: Seq<u8>) -> bool {
        &&& self.window() == w
        &&& self.a() == checksum_a(w)
        &&& self.b() == checksum_b(self.window_size() as int, w)
    }

    /// Create a new rolling checksum with the given window size.
    pub fn new(window_size: usize) -> (r: Self)
        ensures
            r.window_size() == window_size,
            r.holds_checksum_of(Seq::empty()),
    {
        let r = RollingChecksum { a: 0, b: 0, window_size, buffer: Vec::with_capacity(window_size) };
        assert(r.buffer@ =~= Seq::<u8>::empty());
        r
    }

    /// Initialize with a block of data: the window becomes the first
    /// `window_size` bytes of `data` (all of it when shorter).
    pub fn init(&mut self, data: &[u8])
        requires
            init_products_fit(old(self).window_size(), data@),
        ensures
            final(self).window_size() == old(self).window_size(),
            final(self).holds_checksum_of(init_window(old(self).window_size() as int, data@)),
    {
        self.a = 0;
        self.b = 0;
        self.buffer.clear();
        let ws = self.window_size;
        let n = if data.len() < ws { data.len() } else { ws };
        let mut i: usize = 0;
        assert(data@.take(0) =~= Seq::<u8>::empty());
        while i < n
            invariant
                self.window_size == ws,
                n <= data.len(),
                n <= ws,
                n == init_window(ws as int, data@).len(),
                init_products_fit(ws, data@),
                0 <= i <= n,
                self.buffer@ == data@.take(i as int),
                self.a == checksum_a(data@.take(i as int)),
                self.b == checksum_b(ws as int, data@.take(i as int)),
            decreases n - i,
        {
            let byte = data[i];
            let ghost next = data@.take(i + 1);
            assert(next.drop_last() =~= data@.take(i as int));
            assert(next.last() == byte);
            proof {
                lemma_wrapping_add(self.a, byte as u32);
                lemma_mod_add(byte_sum(data@.take(i as int)), byte as int);
                lemma_usize_as_u32((ws - i) as usize);
                assert(((ws - i) % 0x1_0000_0000) * data@[i as int] <= u32::MAX);
            }
            self.a = self.a.wrapping_add(byte as u32);
            let weight = (ws - i) as u32;
            let prod = weight * (byte as u32);
            proof {
                lemma_wrapping_add(self.b, prod);
                let m: int = 0x1_0000_0000;
                let wsi = (ws - i) as int;
                assert(prod as int == (wsi % m) * byte);
                vstd::arithmetic::div_mod::lemma_mul_mod_noop_left(wsi, byte as int, m);
                vstd::arithmetic::div_mod::lemma_mod_twice(wsi * byte, m);
                assert(prod as int % m == (wsi * byte) % m) by {
                    vstd::arithmetic::div_mod::lemma_small_mod(prod as nat, m as nat);
                }
                lemma_mod_add(weighted_sum(ws as int, data@.take(i as int)), prod as int);
                vstd::arithmetic::div_mod::lemma_add_mod_noop(
                    weighted_sum(ws as int, data@.take(i as int)),
                    prod as int,
                    m,
                );
                vstd::arithmetic::div_mod::lemma_add_mod_noop(
                    weighted_sum(ws as int, data@.take(i as int)),
                    wsi * byte,
                    m,
                );
                assert(weighted_sum(ws as int, next) == weighted_sum(ws as int, data@.take(i as int))
                    + wsi * byte);
            }
            self.b = self.b.wrapping_add(prod);
            self.buffer.push(byte);
            assert(self.buffer@ =~= next);
            i = i + 1;
        }
        if data.len() <= ws {
            assert(data@.take(i as int) =~= data@);
        }
    }

    /// Roll the checksum by removing `old_byte` and adding `new_byte`.
    pub fn roll(&mut self, old_byte: u8, new_byte: u8)
        requires
            roll_product_fits(old(self).window_size(), old_byte),
        ensures
            final(self).window_size() == old(self).window_size(),
            final(self).a() as int == (old(self).a() - old_byte + new_byte) % 0x1_0000_0000,
            final(self).b() as int == (old(self).b() - (old(self).window_size() as int
                % 0x1_0000_0000) * old_byte + final(self).a()) % 0x1_0000_0000,
            final(self).window() == (if old(self).window().len() == 0 {
                old(self).window()
            } else {
                old(self).window().drop_first()
            }).push(new_byte),
            ({
                &&& old(self).window().len() == old(self).window_size()
                &&& old(self).window_size() > 0
                &&& old(self).window()[0] == old_byte
                &&& old(self).holds_checksum_of(old(self).window())
            }) ==> final(self).holds_checksum_of(old(self).window().drop_first().push(new_byte)),
    {
        let ghost w = self.buffer@;
        let ghost a0 = self.a;
        let ghost b0 = self.b;
        proof {
            lemma_wrapping_sub(self.a, old_byte as u32);
            lemma_usize_as_u32(self.window_size);
        }
        let t = self.a.wrapping_sub(old_byte as u32);
        proof {
            lemma_wrapping_add(t, new_byte as u32);
            lemma_mod_add(a0 - old_byte, new_byte as int);
        }
        self.a = t.wrapping_add(new_byte as u32);
        let prod = (self.window_size as u32) * (old_byte as u32);
        proof {
            lemma_wrapping_sub(self.b, prod);
        }
        let u = self.b.wrapping_sub(prod);
        proof {
            lemma_wrapping_add(u, self.a);
            lemma_mod_add(b0 - prod, self.a as int);
        }
        self.b = u.wrapping_add(self.a);
        if self.buffer.len() > 0 {
            self.buffer.remove(0);
        }
        self.buffer.push(new_byte);
        proof {
            if w.len() > 0 {
                assert(self.buffer@ =~= w.drop_first().push(new_byte));
            } else {
                assert(self.buffer@ =~= w.push(new_byte));
            }
            if w.len() == self.window_size && self.window_size > 0 && w[0] == old_byte && a0 == checksum_a(w) && b0
                == checksum_b(self.window_size as int, w) {
                lemma_roll_equals_init(self.window_size, w, new_byte);
            }
        }
    }

    /// Get the current checksum value.
    pub fn value(&self) -> (v: u32)
        ensures
            v == packed_value(self.a(), self.b()),
    {
        let b = self.b;
        let a = self.a;
        let v = (b << 16u32) | (a & 0xFFFFu32);
        assert(v == ((b % 0x10000) * 0x10000 + a % 0x10000) as u32) by (bit_vector)
            requires
                v == (b << 16u32) | (a & 0xFFFFu32),
        ;
        v
    }

    /// Get the current checksum as an 8-digit lowercase hex string.
    pub fn hex(&self) -> (r: String)
        ensures
            r@ == hex_str(packed_value(self.a(), self.b()) as nat, 8),
    {
        let v = self.value();
        hex_fixed(v as u64, 8)
    }
}

/// Hash algorithm type.
#[derive(Debug, Clone, Copy, PartialEq, Eq, Structural)]
pub enum HashType {
    /// BLAKE3 - fast and secure (default).
    Blake3,
    /// Rolling checksum for delta sync (Rsync-like).
    Rolling,
}

impl Default for HashType {
    fn default() -> (r: Self)
        ensures
            r == HashType::Blake3,
    {
        HashType::Blake3
    }
}

/// A computed file hash.
#[derive(Debug, Clone, PartialEq, Eq)]
pub struct FileHash {
    /// The hash algorithm used.
    pub algorithm: HashType,
    /// The hash value as hex string.
    pub value: String,
    /// File size in bytes.
    pub size: u64,
}

impl FileHash {
    /// Create a new file hash.
    pub fn new(algorithm: HashType, value: String, size: u64) -> (r: Self)
        ensures
            r.algorithm == algorithm,
            r.value@ == value@,
            r.size == size,
    {
        FileHash { algorithm, value, size }
    }

    /// Check if two hashes are equal (same algorithm, value and size).
    pub fn equals(&self, other: &FileHash) -> (r: bool)
        ensures
            r == (self.algorithm == other.algorithm && self.value@ == other.value@ && self.size
                == other.size),
    {
        self.algorithm == other.algorithm && self.value == other.value && self.size == other.size
    }
}

/// The lowercase hexadecimal BLAKE3 digest of `data`.
pub open spec fn blake3_hex(data: Seq<u8>) -> Seq<char> {
    hex_of_bytes(blake3_digest(data))
}

/// The BLAKE3 digest of `data` computed with `blake3::Hasher::update_rayon`,
/// which the crate documents as producing the same hash as `blake3::hash`,
/// only using several threads; the hash is 32 bytes long.
#[verifier::external_body]
fn blake3_digest_parallel(data: &[u8]) -> (r: Vec<u8>)
    ensures
        r@ == blake3_digest(data@),
        r@.len() == 32,
{
    let mut hasher = blake3::Hasher::new();
    hasher.update_rayon(data);
    hasher.finalize().as_bytes().to_vec()
}

/// Hash bytes using BLAKE3 (multithreaded above 128 KiB).
pub fn hash_bytes(data: &[u8]) -> (r: String)
    ensures
        r@ == blake3_hex(data@),
        r@.len() == 64,
{
    let d = if data.len() > 128 * 1024 {
        blake3_digest_parallel(data)
    } else {
        digest(HashAlgorithm::Blake3, data)
    };
    proof {
        lemma_hex_of_bytes_len(d@);
    }
    bytes_to_hex(d.as_slice())
}

/// Chunk information for delta sync.
#[derive(Debug, Clone)]
pub struct Chunk {
    /// Offset in the file.
    pub offset: u64,
    /// Size of the chunk.
    pub size: usize,
    /// Rolling checksum.
    pub rolling: u32,
    /// Strong hash (BLAKE3) of the chunk.
    pub strong_hash: String,
}

/// The rolling checksum of a whole block, its window being the block.
pub open spec fn block_checksum(data: Seq<u8>) -> u32 {
    packed_value(checksum_a(data), checksum_b(data.len() as int, data))
}

/// The chunk record of one block read at `offset`: its rolling checksum
/// over the whole block and its BLAKE3 digest.
pub fn chunk_of_block(offset: u64, data: &[u8]) -> (c: Chunk)
    requires
        init_products_fit(data@.len() as usize, data@),
    ensures
        c.offset == offset,
        c.size == data@.len(),
        c.rolling == block_checksum(data@),
        c.strong_hash@ == blake3_hex(data@),
{
    let mut rolling = RollingChecksum::new(data.len());
    rolling.init(data);
    assert(init_window(data@.len() as int, data@) == data@);
    let strong_hash = hash_bytes(data);
    Chunk { offset, size: data.len(), rolling: rolling.value(), strong_hash }
}

/// Indices `i < n` whose rolling checksum equals `r`, in ascending order.
pub open spec fn indices_with(rs: Seq<u32>, r: u32, n: nat) -> Seq<usize>
    decreases n,
{
    if n == 0 {
        Seq::empty()
    } else {
        let prev = indices_with(rs, r, (n - 1) as nat);
        if rs[n - 1] == r {
            prev.push((n - 1) as usize)
        } else {
            prev
        }
    }
}

/// The rolling checksums of a chunk list.
pub open spec fn rollings(chunks: Seq<Chunk>) -> Seq<u32> {
    chunks.map_values(|c: Chunk| c.rolling)
}

proof fn lemma_indices_nonempty(rs: Seq<u32>, r: u32, n: nat)
    requires
        n <= rs.len(),
    ensures
        indices_with(rs, r, n).len() > 0 <==> exists|i: int| 0 <= i < n && rs[i] == r,
    decreases n,
{
    if n > 0 {
        lemma_indices_nonempty(rs, r, (n - 1) as nat);
        if rs[n - 1] != r {
            assert forall|i: int| 0 <= i < n && rs[i] == r implies 0 <= i < n - 1 by {}
        }
    }
}

proof fn lemma_indices_members(rs: Seq<u32>, r: u32, n: nat)
    requires
        n <= rs.len(),
        rs.len() <= usize::MAX,
    ensures
        forall|x: usize| #[trigger] indices_with(rs, r, n).contains(x) <==> x < n && rs[x as int] == r,
        forall|a: int, b: int|
            0 <= a < b < indices_with(rs, r, n).len() ==> (#[trigger] indices_with(rs, r, n)[a])
                < (#[trigger] indices_with(rs, r, n)[b]),
        forall|a: int| 0 <= a < indices_with(rs, r, n).len() ==> (#[trigger] indices_with(rs, r, n)[a]) < n,
    decreases n,
{
    if n > 0 {
        let m = (n - 1) as nat;
        lemma_indices_members(rs, r, m);
        let prev = indices_with(rs, r, m);
        if rs[n - 1] == r {
            let cur = prev.push((n - 1) as usize);
            assert forall|x: usize| #[trigger] cur.contains(x) <==> x < n && rs[x as int] == r by {
                if x == n - 1 {
                    assert(cur[prev.len() as int] == x);
                } else {
                    if cur.contains(x) {
                        let j = choose|j: int| 0 <= j < cur.len() && cur[j] == x;
                        assert(j < prev.len());
                        assert(prev[j] == x);
                        assert(prev.contains(x));
                    }
                    if x < n && rs[x as int] == r {
                        assert(prev.contains(x));
                        let j = choose|j: int| 0 <= j < prev.len() && prev[j] == x;
                        assert(cur[j] == x);
                    }
                }
            }
        }
    }
}

/// In the lookup table of a chunk list every chunk's index is listed, once,
/// under that chunk's rolling checksum and under no other; so the lists
/// together hold each index once (their lengths add up to the number of
/// chunks).
pub proof fn lemma_chunk_lookup_partitions(chunks: Seq<Chunk>, lookup: Map<u32, Vec<usize>>)
    requires
        chunks.len() <= usize::MAX,
        forall|r: u32|
            #[trigger] lookup.contains_key(r) <==> exists|i: int|
                0 <= i < chunks.len() && chunks[i].rolling == r,
        forall|r: u32|
            #[trigger] lookup.contains_key(r) ==> lookup[r]@ == indices_with(
                rollings(chunks),
                r,
                chunks.len(),
            ),
    ensures
        forall|i: int|
            0 <= i < chunks.len() ==> lookup.contains_key((#[trigger] chunks[i]).rolling)
                && lookup[chunks[i].rolling]@.contains(i as usize),
        forall|r: u32, x: usize|
            lookup.contains_key(r) && (#[trigger] lookup[r]@.contains(x)) ==> x < chunks.len()
                && chunks[x as int].rolling == r,
        forall|r: u32, a: int, b: int|
            lookup.contains_key(r) && 0 <= a < b < lookup[r]@.len() ==> (#[trigger] lookup[r]@[a])
                < (#[trigger] lookup[r]@[b]),
{
    let rs = rollings(chunks);
    assert forall|r: u32| #[trigger] lookup.contains_key(r) implies {
        &&& forall|x: usize| #[trigger] lookup[r]@.contains(x) ==> x < chunks.len() && chunks[x as int].rolling == r
        &&& forall|a: int, b: int| 0 <= a < b < lookup[r]@.len() ==> (#[trigger] lookup[r]@[a]) < (#[trigger] lookup[r]@[b])
    } by {
        lemma_indices_members(rs, r, chunks.len());
    }
    assert forall|i: int| 0 <= i < chunks.len() implies lookup.contains_key((#[trigger] chunks[i]).rolling)
        && lookup[chunks[i].rolling]@.contains(i as usize) by {
        let r = chunks[i].rolling;
        assert(lookup.contains_key(r));
        lemma_indices_members(rs, r, chunks.len());
        assert(rs[i] == r);
        assert(indices_with(rs, r, chunks.len()).contains(i as usize));
    }
}

/// Build a lookup table from chunks for matching: each rolling checksum
/// that occurs maps to the indices of the chunks carrying it, ascending.
pub fn build_chunk_lookup(chunks: &[Chunk]) -> (lookup: HashMap<u32, Vec<usize>>)
    ensures
        forall|r: u32|
            #[trigger] lookup@.contains_key(r) <==> exists|i: int|
                0 <= i < chunks@.len() && chunks@[i].rolling == r,
        forall|r: u32|
            #[trigger] lookup@.contains_key(r) ==> lookup@[r]@ == indices_with(
                rollings(chunks@),
                r,
                chunks@.len(),
            ),
{
    broadcast use vstd::std_specs::hash::group_hash_axioms;
    let mut lookup: HashMap<u32, Vec<usize>> = HashMap::new();
    let ghost rs = rollings(chunks@);
    let mut idx: usize = 0;
    while idx < chunks.len()
        invariant
            idx <= chunks@.len(),
            rs == rollings(chunks@),
            forall|r: u32|
                #[trigger] lookup@.contains_key(r) <==> indices_with(rs, r, idx as nat).len() > 0,
            forall|r: u32|
                #[trigger] lookup@.contains_key(r) ==> lookup@[r]@ == indices_with(
                    rs,
                    r,
                    idx as nat,
                ),
        decreases chunks@.len() - idx,
    {
        let key = chunks[idx].rolling;
        assert(rs[idx as int] == key);
        let prev = lookup.remove(&key);
        match prev {
            Some(v) => {
                let mut v = v;
                v.push(idx);
                lookup.insert(key, v);
            },
            None => {
                let mut v: Vec<usize> = Vec::new();
                v.push(idx);
                lookup.insert(key, v);
            },
        }
        idx = idx + 1;
        assert forall|r: u32| #[trigger]
            lookup@.contains_key(r) <==> indices_with(rs, r, idx as nat).len() > 0 by {
            assert(indices_with(rs, r, idx as nat) == (if rs[idx - 1] == r {
                indices_with(rs, r, (idx - 1) as nat).push((idx - 1) as usize)
            } else {
                indices_with(rs, r, (idx - 1) as nat)
            }));
        }
        assert forall|r: u32| #[trigger]
            lookup@.contains_key(r) implies lookup@[r]@ == indices_with(rs, r, idx as nat) by {
            assert(indices_with(rs, r, idx as nat) == (if rs[idx - 1] == r {
                indices_with(rs, r, (idx - 1) as nat).push((idx - 1) as usize)
            } else {
                indices_with(rs, r, (idx - 1) as nat)
            }));
        }
    }
    proof {
        assert forall|r: u32| #[trigger]
            lookup@.contains_key(r) <==> exists|i: int|
                0 <= i < chunks@.len() && chunks@[i].rolling == r by {
            lemma_indices_nonempty(rs, r, chunks@.len());
            if exists|i: int| 0 <= i < chunks@.len() && chunks@[i].rolling == r {
                let i = choose|i: int| 0 <= i < chunks@.len() && chunks@[i].rolling == r;
                assert(rs[i] == r);
            }
            if exists|i: int| 0 <= i < chunks@.len() && rs[i] == r {
                let i = choose|i: int| 0 <= i < chunks@.len() && rs[i] == r;
                assert(chunks@[i].rolling == r);
            }
        }
    }
    lookup
}

} // verus!
