//! The warm-start blob: little-endian fields in a fixed layout.
//!
//! | offset     | size | field                                   |
//! |------------|------|-----------------------------------------|
//! | 0          | 4    | `n`, the active length                  |
//! | 4          | 8    | momentum parameter, binary64 pattern    |
//! | 12         | 4    | iteration count                         |
//! | 16         | 8    | baseline, binary64 pattern              |
//! | 24         | `4n` | solution, binary32 patterns             |
//! | `24 + 4n`  | `4n` | extrapolated point, binary32 patterns   |
use vstd::arithmetic::div_mod::lemma_fundamental_div_mod_converse;
use vstd::prelude::*;

verus! {

/// Bytes before the first sample.
pub const HEADER_LEN: usize = 24;

/// What a warm-start blob carries.
pub struct WarmStart {
    pub t_fista: u64,
    pub iteration: u32,
    pub baseline: u64,
    pub solution: Vec<u32>,
    pub extrapolation: Vec<u32>,
}

/// The mathematical content of a `WarmStart`.
pub struct WarmStartView {
    pub t_fista: u64,
    pub iteration: u32,
    pub baseline: u64,
    pub solution: Seq<u32>,
    pub extrapolation: Seq<u32>,
}

impl View for WarmStart {
    type V = WarmStartView;

    open spec fn view(&self) -> WarmStartView {
        WarmStartView {
            t_fista: self.t_fista,
            iteration: self.iteration,
            baseline: self.baseline,
            solution: self.solution@,
            extrapolation: self.extrapolation@,
        }
    }
}

/// The four bytes of `x`, least significant first.
pub open spec fn u32_le(x: u32) -> Seq<u8> {
    seq![
        (x % 256) as u8,
        (x / 256 % 256) as u8,
        (x / 65536 % 256) as u8,
        (x / 16777216) as u8,
    ]
}

/// The value whose four bytes, least significant first, open `s`.
pub open spec fn u32_from_le(s: Seq<u8>) -> u32
    recommends
        s.len() >= 4,
{
    (s[0] + 256 * s[1] + 65536 * s[2] + 16777216 * s[3]) as u32
}

/// The eight bytes of `x`, least significant first.
pub open spec fn u64_le(x: u64) -> Seq<u8> {
    u32_le((x % 0x1_0000_0000) as u32) + u32_le((x / 0x1_0000_0000) as u32)
}

/// The value whose eight bytes, least significant first, open `s`.
pub open spec fn u64_from_le(s: Seq<u8>) -> u64
    recommends
        s.len() >= 8,
{
    (u32_from_le(s.subrange(0, 4)) + 0x1_0000_0000 * u32_from_le(s.subrange(4, 8))) as u64
}

/// The samples one after another, four bytes each.
pub open spec fn samples_le(s: Seq<u32>) -> Seq<u8> {
    Seq::new(4 * s.len(), |j: int| u32_le(s[j / 4])[j % 4])
}

/// The `n` samples that open `bytes`.
pub open spec fn samples_from_le(bytes: Seq<u8>, n: nat) -> Seq<u32>
    recommends
        bytes.len() >= 4 * n,
{
    Seq::new(n, |i: int| u32_from_le(bytes.subrange(4 * i, 4 * i + 4)))
}

/// The blob that carries `w`. The length field holds the number of samples
/// as far as 32 bits can.
pub open spec fn encode(w: WarmStartView) -> Seq<u8>
    recommends
        w.solution.len() == w.extrapolation.len(),
{
    u32_le((w.solution.len() % 0x1_0000_0000) as u32) + u64_le(w.t_fista) + u32_le(w.iteration)
        + u64_le(w.baseline) + samples_le(w.solution) + samples_le(w.extrapolation)
}

/// The number of samples that the blob announces for each of its two vectors.
pub open spec fn announced_len(blob: Seq<u8>) -> nat
    recommends
        blob.len() >= 4,
{
    u32_from_le(blob.subrange(0, 4)) as nat
}

/// Whether the blob is one for `active_len` samples: it holds the header, it
/// announces `active_len`, and its size is exactly `24 + 8 * active_len`.
pub open spec fn accepts(blob: Seq<u8>, active_len: nat) -> bool {
    &&& blob.len() >= HEADER_LEN
    &&& announced_len(blob) == active_len
    &&& blob.len() == HEADER_LEN + 8 * active_len
}

/// What a blob of the right size carries.
pub open spec fn decode(blob: Seq<u8>) -> WarmStartView
    recommends
        accepts(blob, announced_len(blob)),
{
    let n = announced_len(blob) as int;
    WarmStartView {
        t_fista: u64_from_le(blob.subrange(4, 12)),
        iteration: u32_from_le(blob.subrange(12, 16)),
        baseline: u64_from_le(blob.subrange(16, 24)),
        solution: samples_from_le(blob.subrange(24, 24 + 4 * n), n as nat),
        extrapolation: samples_from_le(blob.subrange(24 + 4 * n, 24 + 8 * n), n as nat),
    }
}

/// The four base-256 digits of a value below 2^32 are its quotients by the
/// powers of 256, each reduced modulo 256.
proof fn lemma_base_256_digits(v: int, b0: int, b1: int, b2: int, b3: int)
    requires
        0 <= b0 < 256,
        0 <= b1 < 256,
        0 <= b2 < 256,
        0 <= b3 < 256,
        v == b0 + 256 * b1 + 65536 * b2 + 16777216 * b3,
    ensures
        v % 256 == b0,
        v / 256 % 256 == b1,
        v / 65536 % 256 == b2,
        v / 16777216 == b3,
        0 <= v <= u32::MAX,
{
    lemma_fundamental_div_mod_converse(v, 256, b1 + 256 * b2 + 65536 * b3, b0);
    lemma_fundamental_div_mod_converse(b1 + 256 * b2 + 65536 * b3, 256, b2 + 256 * b3, b1);
    lemma_fundamental_div_mod_converse(v, 65536, b2 + 256 * b3, b0 + 256 * b1);
    lemma_fundamental_div_mod_converse(b2 + 256 * b3, 256, b3, b2);
    lemma_fundamental_div_mod_converse(v, 16777216, b3, b0 + 256 * b1 + 65536 * b2);
}

/// Four bytes read back give the value that was written, and the bytes of a
/// value read from four bytes are those bytes.
pub proof fn lemma_u32_round_trip(x: u32, s: Seq<u8>)
    ensures
        u32_le(x).len() == 4,
        u32_from_le(u32_le(x)) == x,
        s.len() == 4 ==> u32_le(u32_from_le(s)) == s,
{
    let q1 = x as int / 256;
    let q2 = q1 / 256;
    let q3 = q2 / 256;
    assert(q3 < 256);
    lemma_base_256_digits(x as int, x as int % 256, q1 % 256, q2 % 256, q3);
    if s.len() == 4 {
        lemma_base_256_digits(
            s[0] + 256 * s[1] + 65536 * s[2] + 16777216 * s[3],
            s[0] as int,
            s[1] as int,
            s[2] as int,
            s[3] as int,
        );
        assert(u32_le(u32_from_le(s)) =~= s);
    }
}

/// Eight bytes read back give the value that was written, and the bytes of a
/// value read from eight bytes are those bytes.
pub proof fn lemma_u64_round_trip(x: u64, s: Seq<u8>)
    ensures
        u64_le(x).len() == 8,
        u64_from_le(u64_le(x)) == x,
        s.len() == 8 ==> u64_le(u64_from_le(s)) == s,
{
    let lo = (x % 0x1_0000_0000) as u32;
    let hi = (x / 0x1_0000_0000) as u32;
    lemma_u32_round_trip(lo, s);
    lemma_u32_round_trip(hi, s);
    assert(u64_le(x).subrange(0, 4) =~= u32_le(lo));
    assert(u64_le(x).subrange(4, 8) =~= u32_le(hi));
    if s.len() == 8 {
        let a = s.subrange(0, 4);
        let b = s.subrange(4, 8);
        lemma_u32_round_trip(0, a);
        lemma_u32_round_trip(0, b);
        let v = u64_from_le(s);
        assert((v % 0x1_0000_0000) as u32 == u32_from_le(a));
        assert((v / 0x1_0000_0000) as u32 == u32_from_le(b));
        assert(u64_le(v) =~= s);
    }
}

/// Samples read back give the samples that were written.
pub proof fn lemma_samples_round_trip(s: Seq<u32>)
    ensures
        samples_le(s).len() == 4 * s.len(),
        samples_from_le(samples_le(s), s.len()) == s,
{
    let bytes = samples_le(s);
    assert forall|i: int| 0 <= i < s.len() implies samples_from_le(bytes, s.len())[i] == s[i] by {
        lemma_u32_round_trip(s[i], Seq::empty());
        assert(bytes.subrange(4 * i, 4 * i + 4) =~= u32_le(s[i])) by {
            assert forall|k: int| 0 <= k < 4 implies bytes.subrange(4 * i, 4 * i + 4)[k] == u32_le(
                s[i],
            )[k] by {
                assert((4 * i + k) / 4 == i);
                assert((4 * i + k) % 4 == k);
            }
        }
    }
    assert(samples_from_le(bytes, s.len()) =~= s);
}

/// The bytes of samples read from bytes are those bytes.
pub proof fn lemma_samples_bytes_round_trip(bytes: Seq<u8>, n: nat)
    requires
        bytes.len() == 4 * n,
    ensures
        samples_le(samples_from_le(bytes, n)) == bytes,
{
    let s = samples_from_le(bytes, n);
    assert forall|j: int| 0 <= j < 4 * n implies samples_le(s)[j] == bytes[j] by {
        let i = j / 4;
        let k = j % 4;
        let word = bytes.subrange(4 * i, 4 * i + 4);
        lemma_u32_round_trip(0, word);
        assert(word[k] == bytes[j]);
    }
    assert(samples_le(s) =~= bytes);
}

/// Where each of six parts starts and ends in their concatenation.
proof fn lemma_six_parts(
    a: Seq<u8>,
    b: Seq<u8>,
    c: Seq<u8>,
    d: Seq<u8>,
    e: Seq<u8>,
    f: Seq<u8>,
)
    ensures
        ({
            let s = a + b + c + d + e + f;
            let ab = a.len() + b.len();
            let abc = ab + c.len();
            let abcd = abc + d.len();
            let abcde = abcd + e.len();
            &&& s.len() == abcde + f.len()
            &&& s.subrange(0, a.len() as int) == a
            &&& s.subrange(a.len() as int, ab as int) == b
            &&& s.subrange(ab as int, abc as int) == c
            &&& s.subrange(abc as int, abcd as int) == d
            &&& s.subrange(abcd as int, abcde as int) == e
            &&& s.subrange(abcde as int, s.len() as int) == f
        }),
{
    let s = a + b + c + d + e + f;
    let ab = a.len() + b.len();
    let abc = ab + c.len();
    let abcd = abc + d.len();
    let abcde = abcd + e.len();
    assert(s.subrange(0, a.len() as int) =~= a);
    assert(s.subrange(a.len() as int, ab as int) =~= b);
    assert(s.subrange(ab as int, abc as int) =~= c);
    assert(s.subrange(abc as int, abcd as int) =~= d);
    assert(s.subrange(abcd as int, abcde as int) =~= e);
    assert(s.subrange(abcde as int, s.len() as int) =~= f);
}

/// A sequence cut at five places is the concatenation of its six pieces.
proof fn lemma_six_pieces(s: Seq<u8>, i: int, j: int, k: int, l: int, m: int)
    requires
        0 <= i <= j <= k <= l <= m <= s.len(),
    ensures
        s == s.subrange(0, i) + s.subrange(i, j) + s.subrange(j, k) + s.subrange(k, l)
            + s.subrange(l, m) + s.subrange(m, s.len() as int),
{
    assert(s =~= s.subrange(0, i) + s.subrange(i, j) + s.subrange(j, k) + s.subrange(k, l)
        + s.subrange(l, m) + s.subrange(m, s.len() as int));
}

/// Where the fields of an encoded state lie in its blob.
proof fn lemma_encoded_fields(w: WarmStartView)
    requires
        w.solution.len() == w.extrapolation.len(),
    ensures
        ({
            let blob = encode(w);
            let n = w.solution.len() as int;
            &&& blob.len() == 24 + 8 * n
            &&& blob.subrange(0, 4) == u32_le((n % 0x1_0000_0000) as u32)
            &&& blob.subrange(4, 12) == u64_le(w.t_fista)
            &&& blob.subrange(12, 16) == u32_le(w.iteration)
            &&& blob.subrange(16, 24) == u64_le(w.baseline)
            &&& blob.subrange(24, 24 + 4 * n) == samples_le(w.solution)
            &&& blob.subrange(24 + 4 * n, 24 + 8 * n) == samples_le(w.extrapolation)
        }),
{
    let n = w.solution.len() as int;
    let a = u32_le((n % 0x1_0000_0000) as u32);
    let b = u64_le(w.t_fista);
    let c = u32_le(w.iteration);
    let d = u64_le(w.baseline);
    let e = samples_le(w.solution);
    let f = samples_le(w.extrapolation);
    assert(a.len() == 4 && c.len() == 4);
    assert(b.len() == 8 && d.len() == 8);
    assert(e.len() == 4 * n && f.len() == 4 * n);
    lemma_six_parts(a, b, c, d, e, f);
}

/// A blob has exactly `24 + 8n` bytes, and where `n` fits the length field it
/// is accepted for `n` samples and decodes to what was encoded.
pub proof fn lemma_encode_then_decode(w: WarmStartView)
    requires
        w.solution.len() == w.extrapolation.len(),
    ensures
        encode(w).len() == HEADER_LEN + 8 * w.solution.len(),
        w.solution.len() <= u32::MAX ==> accepts(encode(w), w.solution.len()),
        w.solution.len() <= u32::MAX ==> decode(encode(w)) == w,
{
    let n = w.solution.len() as int;
    let blob = encode(w);
    lemma_encoded_fields(w);
    if n <= u32::MAX {
        let field = n as u32;
        assert((n % 0x1_0000_0000) as u32 == field);
        assert(announced_len(blob) == n) by {
            lemma_u32_round_trip(field, Seq::empty());
        }
        let got = decode(blob);
        assert(got.t_fista == w.t_fista) by {
            lemma_u64_round_trip(w.t_fista, Seq::empty());
        }
        assert(got.iteration == w.iteration) by {
            lemma_u32_round_trip(w.iteration, Seq::empty());
        }
        assert(got.baseline == w.baseline) by {
            lemma_u64_round_trip(w.baseline, Seq::empty());
        }
        assert(got.solution == w.solution) by {
            lemma_samples_round_trip(w.solution);
        }
        assert(got.extrapolation == w.extrapolation) by {
            lemma_samples_round_trip(w.extrapolation);
        }
    }
}

/// An accepted blob is the encoding of what it decodes to: no two blobs carry
/// the same state.
pub proof fn lemma_decode_then_encode(blob: Seq<u8>, active_len: nat)
    requires
        accepts(blob, active_len),
    ensures
        decode(blob).solution.len() == active_len,
        decode(blob).extrapolation.len() == active_len,
        encode(decode(blob)) == blob,
{
    let n = active_len as int;
    let w = decode(blob);
    let a = blob.subrange(0, 4);
    let b = blob.subrange(4, 12);
    let c = blob.subrange(12, 16);
    let d = blob.subrange(16, 24);
    let e = blob.subrange(24, 24 + 4 * n);
    let f = blob.subrange(24 + 4 * n, 24 + 8 * n);
    assert(f == blob.subrange(24 + 4 * n, blob.len() as int));
    assert(u32_le((w.solution.len() % 0x1_0000_0000) as u32) == a) by {
        assert(w.solution.len() == u32_from_le(a));
        assert((w.solution.len() % 0x1_0000_0000) as u32 == u32_from_le(a));
        lemma_u32_round_trip(0, a);
    }
    assert(u64_le(w.t_fista) == b) by {
        lemma_u64_round_trip(0, b);
    }
    assert(u32_le(w.iteration) == c) by {
        lemma_u32_round_trip(0, c);
    }
    assert(u64_le(w.baseline) == d) by {
        lemma_u64_round_trip(0, d);
    }
    assert(samples_le(w.solution) == e) by {
        lemma_samples_bytes_round_trip(e, active_len);
    }
    assert(samples_le(w.extrapolation) == f) by {
        lemma_samples_bytes_round_trip(f, active_len);
    }
    assert(encode(w) == a + b + c + d + e + f);
    lemma_six_pieces(blob, 4, 12, 16, 24, 24 + 4 * n);
}

/// Appends the four bytes of `x`.
pub fn put_u32_le(buf: &mut Vec<u8>, x: u32)
    ensures
        final(buf)@ == old(buf)@ + u32_le(x),
{
    buf.push((x % 256) as u8);
    buf.push((x / 256 % 256) as u8);
    buf.push((x / 65536 % 256) as u8);
    buf.push((x / 16777216) as u8);
    assert(buf@ =~= old(buf)@ + u32_le(x));
}

/// Appends the eight bytes of `x`.
pub fn put_u64_le(buf: &mut Vec<u8>, x: u64)
    ensures
        final(buf)@ == old(buf)@ + u64_le(x),
{
    put_u32_le(buf, (x % 0x1_0000_0000) as u32);
    put_u32_le(buf, (x / 0x1_0000_0000) as u32);
    assert(buf@ =~= old(buf)@ + u64_le(x));
}

/// Appends the first `n` samples of `samples`, four bytes each.
pub fn put_samples_le(buf: &mut Vec<u8>, samples: &Vec<u32>, n: usize)
    requires
        n <= samples.len(),
    ensures
        final(buf)@ == old(buf)@ + samples_le(samples@.subrange(0, n as int)),
{
    let mut i: usize = 0;
    assert(buf@ =~= old(buf)@ + samples_le(samples@.subrange(0, 0)));
    while i < n
        invariant
            i <= n <= samples.len(),
            buf@ == old(buf)@ + samples_le(samples@.subrange(0, i as int)),
        decreases n - i,
    {
        let ghost before = buf@;
        put_u32_le(buf, samples[i]);
        proof {
            let done = samples@.subrange(0, i as int);
            let next = samples@.subrange(0, i + 1);
            assert(samples_le(next) =~= samples_le(done) + u32_le(samples[i as int])) by {
                assert forall|j: int| 0 <= j < 4 * (i + 1) implies samples_le(next)[j] == (
                samples_le(done) + u32_le(samples[i as int]))[j] by {
                    if j >= 4 * i {
                        assert(j / 4 == i);
                        assert(j % 4 == j - 4 * i);
                    }
                }
            }
            assert(buf@ =~= old(buf)@ + samples_le(next));
        }
        i = i + 1;
    }
}

/// The value held in the four bytes at `at`.
pub fn read_u32_le(bytes: &[u8], at: usize) -> (r: u32)
    requires
        at + 4 <= bytes.len(),
    ensures
        r == u32_from_le(bytes@.subrange(at as int, at + 4)),
{
    let b0: u32 = bytes[at] as u32;
    let b1: u32 = bytes[at + 1] as u32;
    let b2: u32 = bytes[at + 2] as u32;
    let b3: u32 = bytes[at + 3] as u32;
    b0 + 256 * b1 + 65536 * b2 + 16777216 * b3
}

/// The value held in the eight bytes at `at`.
pub fn read_u64_le(bytes: &[u8], at: usize) -> (r: u64)
    requires
        at + 8 <= bytes.len(),
    ensures
        r == u64_from_le(bytes@.subrange(at as int, at + 8)),
{
    let lo: u64 = read_u32_le(bytes, at) as u64;
    let hi: u64 = read_u32_le(bytes, at + 4) as u64;
    proof {
        let s = bytes@.subrange(at as int, at + 8);
        assert(s.subrange(0, 4) =~= bytes@.subrange(at as int, at + 4));
        assert(s.subrange(4, 8) =~= bytes@.subrange(at + 4, at + 8));
    }
    lo + 0x1_0000_0000 * hi
}

/// The `n` samples held in the bytes from `at` on.
pub fn read_samples_le(bytes: &[u8], at: usize, n: usize) -> (r: Vec<u32>)
    requires
        at + 4 * n <= bytes.len(),
    ensures
        r@ == samples_from_le(bytes@.subrange(at as int, at + 4 * n), n as nat),
{
    let mut out: Vec<u32> = Vec::new();
    let mut i: usize = 0;
    let ghost region = bytes@.subrange(at as int, at + 4 * n);
    while i < n
        invariant
            i <= n,
            at + 4 * n <= bytes.len(),
            region == bytes@.subrange(at as int, at + 4 * n),
            out.len() == i,
            forall|k: int| 0 <= k < i ==> out[k] == u32_from_le(region.subrange(4 * k, 4 * k + 4)),
        decreases n - i,
    {
        let x = read_u32_le(bytes, at + 4 * i);
        assert(region.subrange(4 * i, 4 * i + 4) =~= bytes@.subrange(at + 4 * i, at + 4 * i + 4));
        out.push(x);
        i = i + 1;
    }
    assert(out@ =~= samples_from_le(region, n as nat));
    out
}

impl WarmStart {
    /// The blob that carries this state. The length field announces the
    /// length of the solution.
    pub fn to_bytes(&self) -> (blob: Vec<u8>)
        ensures
            blob@ == encode(self@),
    {
        let n = self.solution.len();
        let mut buf: Vec<u8> = Vec::new();
        put_u32_le(&mut buf, ((n as u64) % 0x1_0000_0000) as u32);
        put_u64_le(&mut buf, self.t_fista);
        put_u32_le(&mut buf, self.iteration);
        put_u64_le(&mut buf, self.baseline);
        put_samples_le(&mut buf, &self.solution, n);
        put_samples_le(&mut buf, &self.extrapolation, self.extrapolation.len());
        proof {
            assert(self.solution@.subrange(0, n as int) =~= self.solution@);
            assert(self.extrapolation@.subrange(0, self.extrapolation.len() as int)
                =~= self.extrapolation@);
            assert(buf@ =~= encode(self@));
        }
        buf
    }

    /// Reads a blob for `active_len` samples. A blob that is empty, shorter
    /// than its header, of another size than its length field announces, or
    /// for another length than `active_len` gives `None`.
    pub fn from_bytes(blob: &[u8], active_len: usize) -> (r: Option<WarmStart>)
        ensures
            r is Some <==> accepts(blob@, active_len as nat),
            r is Some ==> r->0@ == decode(blob@),
    {
        if blob.len() < HEADER_LEN {
            return None;
        }
        let saved = read_u32_le(blob, 0) as usize;
        let body = blob.len() - HEADER_LEN;
        if saved != active_len || body % 8 != 0 || body / 8 != saved {
            return None;
        }
        let n = saved;
        let t_fista = read_u64_le(blob, 4);
        let iteration = read_u32_le(blob, 12);
        let baseline = read_u64_le(blob, 16);
        let solution = read_samples_le(blob, HEADER_LEN, n);
        let extrapolation = read_samples_le(blob, HEADER_LEN + 4 * n, n);
        Some(WarmStart { t_fista, iteration, baseline, solution, extrapolation })
    }
}

} // verus!
