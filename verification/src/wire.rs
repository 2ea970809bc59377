//! Byte-level primitives shared by every decoder layer: multi-byte word
//! values in either endianness, trailing-NUL trimming, byte and string
//! equality, UTF-8 validation and substring search.

use vstd::prelude::*;

verus! {

use vstd::slice::slice_subrange;
use vstd::string::StringSliceAdditionalSpecFns;
use vstd::utf8::encode_scalar;
use vstd::utf8::encode_utf8;

/// 256 raised to `n`: the number of values a word of `n` bytes can take.
pub open spec fn pow256(n: nat) -> nat
    decreases n,
{
    if n == 0 {
        1
    } else {
        256 * pow256((n - 1) as nat)
    }
}

/// The unsigned value of `s` read as a little-endian word: the first byte
/// is the least significant.
pub open spec fn le_word(s: Seq<u8>) -> nat
    decreases s.len(),
{
    if s.len() == 0 {
        0
    } else {
        (s[0] as nat) + 256 * le_word(s.skip(1))
    }
}

/// The unsigned value of `s` read as a big-endian word: the first byte is
/// the most significant.
pub open spec fn be_word(s: Seq<u8>) -> nat
    decreases s.len(),
{
    if s.len() == 0 {
        0
    } else {
        256 * be_word(s.drop_last()) + (s.last() as nat)
    }
}

/// The unsigned value of `s` in the endianness selected by `msb_first`.
pub open spec fn word_value(s: Seq<u8>, msb_first: bool) -> nat {
    if msb_first {
        be_word(s)
    } else {
        le_word(s)
    }
}

/// The two's-complement reading of the unsigned value `v` of an `n`-byte word.
pub open spec fn to_signed(v: nat, n: nat) -> int {
    if v < pow256(n) / 2 {
        v as int
    } else {
        v - pow256(n)
    }
}

pub proof fn lemma_pow256_monotonic(m: nat, n: nat)
    requires
        m <= n,
    ensures
        pow256(m) <= pow256(n),
    decreases n,
{
    if m < n {
        lemma_pow256_monotonic(m, (n - 1) as nat);
    }
}

pub proof fn lemma_le_word_bound(s: Seq<u8>)
    ensures
        le_word(s) < pow256(s.len()),
    decreases s.len(),
{
    if s.len() > 0 {
        lemma_le_word_bound(s.skip(1));
    }
}

pub proof fn lemma_be_word_bound(s: Seq<u8>)
    ensures
        be_word(s) < pow256(s.len()),
    decreases s.len(),
{
    if s.len() > 0 {
        lemma_be_word_bound(s.drop_last());
    }
}

/// Reads the whole of `s` as a big-endian word.
fn read_be_bytes(s: &[u8]) -> (r: u128)
    requires
        s@.len() <= 16,
    ensures
        r == be_word(s@),
{
    let n = s.len();
    let mut acc: u128 = 0;
    let mut i: usize = 0;
    proof {
        assert(s@.subrange(0, 0) =~= Seq::<u8>::empty());
    }
    while i < n
        invariant
            i <= n,
            n == s@.len() <= 16,
            acc == be_word(s@.subrange(0, i as int)),
        decreases n - i,
    {
        proof {
            lemma_be_word_bound(s@.subrange(0, i as int));
            lemma_pow256_monotonic(i as nat, 15);
            reveal_with_fuel(pow256, 17);
            assert(pow256(15) == 0x1000000000000000000000000000000);
            assert(s@.subrange(0, i + 1).drop_last() =~= s@.subrange(0, i as int));
            assert(s@.subrange(0, i + 1).last() == s@[i as int]);
        }
        acc = acc * 256 + (s[i] as u128);
        i += 1;
    }
    proof {
        assert(s@.subrange(0, n as int) =~= s@);
    }
    acc
}

/// Reads the whole of `s` as a little-endian word.
fn read_le_bytes(s: &[u8]) -> (r: u128)
    requires
        s@.len() <= 16,
    ensures
        r == le_word(s@),
{
    let n = s.len();
    let mut acc: u128 = 0;
    let mut i: usize = n;
    proof {
        assert(s@.skip(n as int) =~= Seq::<u8>::empty());
    }
    while i > 0
        invariant
            i <= n,
            n == s@.len() <= 16,
            acc == le_word(s@.skip(i as int)),
        decreases i,
    {
        proof {
            lemma_le_word_bound(s@.skip(i as int));
            lemma_pow256_monotonic((n - i) as nat, 15);
            reveal_with_fuel(pow256, 17);
            assert(pow256(15) == 0x1000000000000000000000000000000);
            assert(s@.skip(i - 1).skip(1) =~= s@.skip(i as int));
            assert(s@.skip(i - 1)[0] == s@[i - 1]);
        }
        acc = acc * 256 + (s[i - 1] as u128);
        i -= 1;
    }
    proof {
        assert(s@.skip(0) =~= s@);
    }
    acc
}

/// Reads `s` as a word in the endianness selected by `msb_first`.
pub fn read_word(s: &[u8], msb_first: bool) -> (r: u128)
    requires
        s@.len() <= 16,
    ensures
        r == word_value(s@, msb_first),
{
    if msb_first {
        read_be_bytes(s)
    } else {
        read_le_bytes(s)
    }
}

pub fn read_u16(s: &[u8], msb_first: bool) -> (r: u16)
    requires
        s@.len() == 2,
    ensures
        r == word_value(s@, msb_first),
{
    let v = read_word(s, msb_first);
    proof {
        lemma_le_word_bound(s@);
        lemma_be_word_bound(s@);
        reveal_with_fuel(pow256, 17);
        assert(pow256(2) == 0x10000);
    }
    v as u16
}

pub fn read_u32(s: &[u8], msb_first: bool) -> (r: u32)
    requires
        s@.len() == 4,
    ensures
        r == word_value(s@, msb_first),
{
    let v = read_word(s, msb_first);
    proof {
        lemma_le_word_bound(s@);
        lemma_be_word_bound(s@);
        reveal_with_fuel(pow256, 17);
        assert(pow256(4) == 0x100000000);
    }
    v as u32
}

pub fn read_u64(s: &[u8], msb_first: bool) -> (r: u64)
    requires
        s@.len() == 8,
    ensures
        r == word_value(s@, msb_first),
{
    let v = read_word(s, msb_first);
    proof {
        lemma_le_word_bound(s@);
        lemma_be_word_bound(s@);
        reveal_with_fuel(pow256, 17);
        assert(pow256(8) == 0x10000000000000000);
    }
    v as u64
}

pub fn read_u128(s: &[u8], msb_first: bool) -> (r: u128)
    requires
        s@.len() == 16,
    ensures
        r == word_value(s@, msb_first),
{
    read_word(s, msb_first)
}

pub fn read_i8(s: &[u8]) -> (r: i8)
    requires
        s@.len() == 1,
    ensures
        r as int == to_signed(word_value(s@, true), 1),
{
    let v = s[0];
    proof {
        assert(s@.drop_last() =~= Seq::<u8>::empty());
        assert(s@.skip(1) =~= Seq::<u8>::empty());
        assert(s@.last() == s@[0]);
        reveal_with_fuel(be_word, 2);
        reveal_with_fuel(le_word, 2);
        assert(be_word(s@) == s@[0]);
        assert(le_word(s@) == s@[0]);
        reveal_with_fuel(pow256, 17);
        assert(pow256(1) == 256);
    }
    if v < 0x80 {
        v as i8
    } else {
        i8::MIN + ((v - 0x80) as i8)
    }
}

pub fn read_i16(s: &[u8], msb_first: bool) -> (r: i16)
    requires
        s@.len() == 2,
    ensures
        r as int == to_signed(word_value(s@, msb_first), 2),
{
    let v = read_u16(s, msb_first);
    proof {
        reveal_with_fuel(pow256, 17);
        assert(pow256(2) == 0x10000);
    }
    if v < 0x8000 {
        v as i16
    } else {
        i16::MIN + ((v - 0x8000) as i16)
    }
}

pub fn read_i32(s: &[u8], msb_first: bool) -> (r: i32)
    requires
        s@.len() == 4,
    ensures
        r as int == to_signed(word_value(s@, msb_first), 4),
{
    let v = read_u32(s, msb_first);
    proof {
        reveal_with_fuel(pow256, 17);
        assert(pow256(4) == 0x100000000);
    }
    if v < 0x80000000 {
        v as i32
    } else {
        i32::MIN + ((v - 0x80000000) as i32)
    }
}

pub fn read_i64(s: &[u8], msb_first: bool) -> (r: i64)
    requires
        s@.len() == 8,
    ensures
        r as int == to_signed(word_value(s@, msb_first), 8),
{
    let v = read_u64(s, msb_first);
    proof {
        reveal_with_fuel(pow256, 17);
        assert(pow256(8) == 0x10000000000000000);
    }
    if v < 0x8000000000000000 {
        v as i64
    } else {
        i64::MIN + ((v - 0x8000000000000000) as i64)
    }
}

pub fn read_i128(s: &[u8], msb_first: bool) -> (r: i128)
    requires
        s@.len() == 16,
    ensures
        r as int == to_signed(word_value(s@, msb_first), 16),
{
    let v = read_u128(s, msb_first);
    proof {
        lemma_le_word_bound(s@);
        lemma_be_word_bound(s@);
        reveal_with_fuel(pow256, 17);
        assert(pow256(16) == 0x100000000000000000000000000000000);
    }
    if v < 0x80000000000000000000000000000000 {
        v as i128
    } else {
        i128::MIN + ((v - 0x80000000000000000000000000000000) as i128)
    }
}

// --- trailing-NUL trimming ----------------------------------------------

/// `s` with every trailing 0x00 byte removed.
pub open spec fn trim_nuls(s: Seq<u8>) -> Seq<u8>
    decreases s.len(),
{
    if s.len() > 0 && s.last() == 0 {
        trim_nuls(s.drop_last())
    } else {
        s
    }
}

pub proof fn lemma_trim_nuls_props(s: Seq<u8>)
    ensures
        trim_nuls(s).len() <= s.len(),
        trim_nuls(s) == s.subrange(0, trim_nuls(s).len() as int),
        trim_nuls(s).len() > 0 ==> trim_nuls(s).last() != 0,
    decreases s.len(),
{
    if s.len() > 0 && s.last() == 0 {
        lemma_trim_nuls_props(s.drop_last());
        assert(s.drop_last() =~= s.subrange(0, s.len() - 1));
        assert(s.drop_last().subrange(0, trim_nuls(s).len() as int) =~= s.subrange(
            0,
            trim_nuls(s).len() as int,
        ));
    } else {
        assert(s =~= s.subrange(0, s.len() as int));
    }
}

pub fn trim_trailing_nuls(s: &[u8]) -> (out: &[u8])
    ensures
        out@ == trim_nuls(s@),
{
    let mut end = s.len();
    proof {
        assert(s@.subrange(0, end as int) =~= s@);
    }
    while end > 0 && s[end - 1] == 0
        invariant
            end <= s@.len(),
            trim_nuls(s@) == trim_nuls(s@.subrange(0, end as int)),
        decreases end,
    {
        proof {
            assert(s@.subrange(0, end as int).drop_last() =~= s@.subrange(0, end - 1));
            assert(s@.subrange(0, end as int).last() == s@[end - 1]);
        }
        end -= 1;
    }
    slice_subrange(s, 0, end)
}

// --- equality -----------------------------------------------------------

pub fn bytes_eq(a: &[u8], b: &[u8]) -> (r: bool)
    ensures
        r == (a@ == b@),
{
    if a.len() != b.len() {
        return false;
    }
    let n = a.len();
    let mut i: usize = 0;
    while i < n
        invariant
            i <= n,
            n == a@.len() == b@.len(),
            forall|j: int| 0 <= j < i ==> a@[j] == b@[j],
        decreases n - i,
    {
        if a[i] != b[i] {
            return false;
        }
        i += 1;
    }
    proof {
        assert(a@ =~= b@);
    }
    true
}

/// Character-for-character equality of two string slices.
pub fn str_eq(a: &str, b: &str) -> (r: bool)
    ensures
        r == (a@ == b@),
{
    let r = bytes_eq(a.as_bytes(), b.as_bytes());
    proof {
        vstd::utf8::encode_utf8_decode_utf8(a@);
        vstd::utf8::encode_utf8_decode_utf8(b@);
    }
    r
}

// --- trusted calls into outside crates ----------------------------------

/// Relies on `simdutf8::basic::from_utf8`: it returns the input bytes
/// unchanged, viewed as a `&str`, exactly when they are valid UTF-8.
#[verifier::external_body]
pub fn utf8_from_bytes(b: &[u8]) -> (r: Option<&str>)
    ensures
        r is Some <==> vstd::utf8::valid_utf8(b@),
        r matches Some(s) ==> s.spec_bytes() == b@,
{
    simdutf8::basic::from_utf8(b).ok()
}

/// Relies on `memchr::memmem::find`: it returns the starting index of the
/// first occurrence of `needle` within `haystack`, or `None` when there is
/// no occurrence.
#[verifier::external_body]
pub fn find_sub(haystack: &[u8], needle: &[u8]) -> (r: Option<usize>)
    requires
        needle@.len() >= 1,
    ensures
        r matches Some(i) ==> {
            &&& i + needle@.len() <= haystack@.len()
            &&& haystack@.subrange(i as int, i + needle@.len()) == needle@
            &&& forall|j: int|
                0 <= j < i && j + needle@.len() <= haystack@.len()
                    ==> #[trigger] haystack@.subrange(j, j + needle@.len()) != needle@
        },
        r is None ==> forall|j: int|
            0 <= j && j + needle@.len() <= haystack@.len() ==> #[trigger] haystack@.subrange(
                j,
                j + needle@.len(),
            ) != needle@,
{
    memchr::memmem::find(haystack, needle)
}

/// A trailing NUL character encodes as a trailing 0x00 byte.
pub proof fn lemma_encode_trailing_nul(chars: Seq<char>)
    requires
        chars.len() > 0,
        chars.last() == '\0',
    ensures
        encode_utf8(chars).len() > 0,
        encode_utf8(chars).last() == 0,
    decreases chars.len(),
{
    if chars.len() == 1 {
        assert(chars[0] == chars.last());
        assert(('\0' as u32) == 0);
        assert((0u32 & 0x7F) as u8 == 0) by (bit_vector);
        assert(encode_scalar(0) =~= seq![0u8]);
        assert(chars.drop_first().len() == 0);
        assert(encode_utf8(chars.drop_first()) =~= Seq::<u8>::empty());
        assert(encode_utf8(chars) == encode_scalar(chars[0] as u32) + encode_utf8(
            chars.drop_first(),
        ));
        assert(encode_utf8(chars) =~= seq![0u8]);
    } else {
        let rest = chars.drop_first();
        assert(rest.last() == chars.last());
        lemma_encode_trailing_nul(rest);
        let whole = encode_scalar(chars[0] as u32) + encode_utf8(rest);
        assert(encode_utf8(chars) == whole);
        assert(whole.last() == encode_utf8(rest).last());
    }
}

/// A string whose UTF-8 bytes carry no trailing 0x00 byte has no trailing
/// NUL character.
pub proof fn lemma_no_trailing_nul_chars(chars: Seq<char>, b: Seq<u8>)
    requires
        encode_utf8(chars) == b,
        b.len() == 0 || b.last() != 0,
    ensures
        chars.len() == 0 || chars.last() != '\0',
{
    if chars.len() > 0 && chars.last() == '\0' {
        lemma_encode_trailing_nul(chars);
    }
}

} // verus!
