//! Text codecs shared by the ledger engine: decimal renderings of integers
//! and amounts, lowercase hex, and the digests used by the hash chain.

use vstd::prelude::*;
use vstd::string::StringExecFns;
use base58::ToBase58;
use sha2::Digest;

verus! {

// ---------------------------------------------------------------------------
// Decimal rendering
// ---------------------------------------------------------------------------

/// The decimal digit character for `d` (0 to 9).
pub open spec fn dec_digit(d: int) -> char {
    if d == 0 {
        '0'
    } else if d == 1 {
        '1'
    } else if d == 2 {
        '2'
    } else if d == 3 {
        '3'
    } else if d == 4 {
        '4'
    } else if d == 5 {
        '5'
    } else if d == 6 {
        '6'
    } else if d == 7 {
        '7'
    } else if d == 8 {
        '8'
    } else {
        '9'
    }
}

/// The usual base-10 rendering of `n`, without sign or padding.
pub open spec fn dec_rep(n: nat) -> Seq<char>
    decreases n,
{
    if n < 10 {
        seq![dec_digit(n as int)]
    } else {
        dec_rep(n / 10).push(dec_digit((n % 10) as int))
    }
}

/// The base-10 rendering of a signed integer: a `-` sign for negatives.
pub open spec fn int_chars(d: int) -> Seq<char> {
    if d < 0 {
        seq!['-'] + dec_rep((-d) as nat)
    } else {
        dec_rep(d as nat)
    }
}

pub(crate) fn digit_str(d: u64) -> (s: &'static str)
    requires
        d < 10,
    ensures
        s@ == seq![dec_digit(d as int)],
{
    let s: &'static str = if d == 0 {
        "0"
    } else if d == 1 {
        "1"
    } else if d == 2 {
        "2"
    } else if d == 3 {
        "3"
    } else if d == 4 {
        "4"
    } else if d == 5 {
        "5"
    } else if d == 6 {
        "6"
    } else if d == 7 {
        "7"
    } else if d == 8 {
        "8"
    } else {
        "9"
    };
    proof {
        reveal_strlit("0");
        reveal_strlit("1");
        reveal_strlit("2");
        reveal_strlit("3");
        reveal_strlit("4");
        reveal_strlit("5");
        reveal_strlit("6");
        reveal_strlit("7");
        reveal_strlit("8");
        reveal_strlit("9");
        assert(s@ =~= seq![dec_digit(d as int)]);
    }
    s
}

/// Renders `n` in base 10.
pub fn u64_to_dec(n: u64) -> (s: String)
    ensures
        s@ == dec_rep(n as nat),
    decreases n,
{
    if n < 10 {
        String::from_str(digit_str(n))
    } else {
        let mut s = u64_to_dec(n / 10);
        s.append(digit_str(n % 10));
        proof {
            assert(s@ =~= dec_rep(n as nat));
        }
        s
    }
}

/// Renders a signed integer in base 10.
pub fn i64_to_dec(d: i64) -> (s: String)
    ensures
        s@ == int_chars(d as int),
{
    if d >= 0 {
        u64_to_dec(d as u64)
    } else {
        let m: u64 = ((-(d + 1)) as u64) + 1;
        assert(m as int == -(d as int));
        let mut s = String::from_str("-");
        s.append(u64_to_dec(m).as_str());
        proof {
            reveal_strlit("-");
            assert(s@ =~= int_chars(d as int));
        }
        s
    }
}

// ---------------------------------------------------------------------------
// Amounts
// ---------------------------------------------------------------------------

/// Amounts are stored as integer minor units; this many make one whole
/// coin, so the text rendering carries at most two fractional digits.
pub const MINOR_UNITS: u64 = 100;

/// The fractional digits of an amount rendering, for `r < 100` minor
/// units: always at least one digit, trailing zeros dropped.
pub open spec fn frac_chars(r: nat) -> Seq<char> {
    if r == 0 {
        seq!['0']
    } else if r % 10 == 0 {
        seq![dec_digit((r / 10) as int)]
    } else if r < 10 {
        seq!['0', dec_digit(r as int)]
    } else {
        seq![dec_digit((r / 10) as int), dec_digit((r % 10) as int)]
    }
}

/// The canonical decimal rendering of an amount of minor units: the whole
/// part, a point, and at least one fractional digit, so that a whole
/// number still shows a fractional part.
pub open spec fn amount_chars(v: nat) -> Seq<char> {
    dec_rep(v / (MINOR_UNITS as nat)) + seq!['.'] + frac_chars(v % (MINOR_UNITS as nat))
}

// ---------------------------------------------------------------------------
// Lowercase hex
// ---------------------------------------------------------------------------

/// The lowercase hex digit character for `d` (0 to 15).
pub open spec fn hex_digit(d: int) -> char {
    if d < 10 {
        dec_digit(d)
    } else if d == 10 {
        'a'
    } else if d == 11 {
        'b'
    } else if d == 12 {
        'c'
    } else if d == 13 {
        'd'
    } else if d == 14 {
        'e'
    } else {
        'f'
    }
}

/// The lowercase hex rendering of a byte string: two digits per byte.
pub open spec fn hex_of(b: Seq<u8>) -> Seq<char>
    decreases b.len(),
{
    if b.len() == 0 {
        Seq::empty()
    } else {
        hex_of(b.drop_last()) + seq![
            hex_digit(b.last() as int / 16),
            hex_digit(b.last() as int % 16),
        ]
    }
}

/// Whether `c` is a hex digit in either case.
pub open spec fn is_hex_char(c: char) -> bool {
    ('0' <= c && c <= '9') || ('a' <= c && c <= 'f') || ('A' <= c && c <= 'F')
}

/// The value of the hex digit `c`.
pub open spec fn hex_val(c: char) -> int {
    if '0' <= c && c <= '9' {
        c as int - '0' as int
    } else if 'a' <= c && c <= 'f' {
        c as int - 'a' as int + 10
    } else {
        c as int - 'A' as int + 10
    }
}

/// Whether `s` is a well-formed hex string: even length, hex digits only.
pub open spec fn valid_hex(s: Seq<char>) -> bool {
    s.len() % 2 == 0 && (forall|i: int| 0 <= i < s.len() ==> is_hex_char(#[trigger] s[i]))
}

/// The bytes denoted by a well-formed hex string.
pub open spec fn bytes_of_hex(s: Seq<char>) -> Seq<u8>
    decreases s.len(),
{
    if s.len() < 2 {
        Seq::empty()
    } else {
        bytes_of_hex(s.drop_last().drop_last()).push(
            (hex_val(s[s.len() - 2]) * 16 + hex_val(s.last())) as u8,
        )
    }
}

/// Hex encoding is left inverted by hex decoding, and always well formed.
pub proof fn lemma_hex_roundtrip(b: Seq<u8>)
    ensures
        hex_of(b).len() == 2 * b.len(),
        valid_hex(hex_of(b)),
        bytes_of_hex(hex_of(b)) == b,
    decreases b.len(),
{
    if b.len() > 0 {
        lemma_hex_roundtrip(b.drop_last());
        let h = hex_of(b);
        let hi = b.last() as int / 16;
        let lo = b.last() as int % 16;
        assert(0 <= hi < 16 && 0 <= lo < 16);
        assert(hex_val(hex_digit(hi)) == hi);
        assert(hex_val(hex_digit(lo)) == lo);
        assert(h.drop_last().drop_last() =~= hex_of(b.drop_last()));
        assert(h[h.len() - 2] == hex_digit(hi));
        assert(h.last() == hex_digit(lo));
        assert((hex_val(h[h.len() - 2]) * 16 + hex_val(h.last())) as u8 == b.last());
        assert(bytes_of_hex(h) =~= b);
        assert(forall|i: int|
            0 <= i < h.len() ==> is_hex_char(#[trigger] h[i]));
    } else {
        assert(bytes_of_hex(hex_of(b)) =~= b);
    }
}

/// Relies on `hex::encode`: two lowercase hex digits for each input byte,
/// most significant digit first.
#[verifier::external_body]
pub fn hex_encode(b: &[u8]) -> (s: String)
    ensures
        s@ == hex_of(b@),
{
    hex::encode(b)
}

/// Relies on `hex::decode`: succeeds exactly on even-length strings of hex
/// digits of either case, and returns the denoted bytes.
#[verifier::external_body]
pub fn hex_decode(s: &str) -> (r: Option<Vec<u8>>)
    ensures
        r is Some <==> valid_hex(s@),
        r matches Some(v) ==> v@ == bytes_of_hex(s@),
{
    hex::decode(s).ok()
}

// ---------------------------------------------------------------------------
// Digests
// ---------------------------------------------------------------------------

pub uninterp spec fn sha256_of(s: Seq<char>) -> Seq<u8>;

/// Relies on `sha2::Sha256`: a 256-bit digest of the UTF-8 bytes of `s`,
/// a function of `s` alone.
#[verifier::external_body]
pub fn sha256_digest(s: &str) -> (r: Vec<u8>)
    ensures
        r@ == sha256_of(s@),
        r@.len() == 32,
{
    sha2::Sha256::digest(s.as_bytes()).to_vec()
}

/// The hex-encoded 256-bit digest of a string: the hash fields of a
/// transaction hold exactly this.
pub open spec fn hash_chars(s: Seq<char>) -> Seq<char> {
    hex_of(sha256_of(s))
}

/// Digests `s` and hex-encodes the result.
pub fn hash_hex_str(s: &str) -> (r: String)
    ensures
        r@ == hash_chars(s@),
{
    let d = sha256_digest(s);
    hex_encode(d.as_slice())
}

pub uninterp spec fn base58_of(b: Seq<u8>) -> Seq<char>;

/// Relies on `base58::ToBase58`: the base-58 rendering of a byte string,
/// a function of the bytes alone.
#[verifier::external_body]
pub fn base58_encode(b: &[u8]) -> (s: String)
    ensures
        s@ == base58_of(b@),
{
    b.to_base58()
}

} // verus!
