//! The identifier encoder of the shortener: a record id becomes a short,
//! URL-safe token. The encoding is deterministic and injective, so distinct
//! ids always receive distinct tokens, and id 0 still gets a non-empty one.

use vstd::arithmetic::div_mod::lemma_fundamental_div_mod;
use vstd::prelude::*;

verus! {

/// Code point of the base-62 digit of value `d`: the digits `0`-`9`, then
/// `A`-`Z`, then `a`-`z`.
pub open spec fn digit_code(d: int) -> int {
    if d < 10 {
        48 + d
    } else if d < 36 {
        55 + d
    } else {
        61 + d
    }
}

pub open spec fn base62_digit(d: int) -> char {
    (digit_code(d) as u8) as char
}

/// The base-62 digits of `n`, least significant first; empty for 0.
pub open spec fn base62_chars(n: nat) -> Seq<char>
    decreases n,
{
    if n == 0 {
        Seq::empty()
    } else {
        seq![base62_digit((n % 62) as int)] + base62_chars(n / 62)
    }
}

/// The number the encoder converts for an 8-byte input: the bytes, prefixed
/// with 0x01, read as one big-endian unsigned number.
pub open spec fn prefixed_value(u: u64) -> nat {
    (0x10000000000000000 + u) as nat
}

/// The token of record id `id`: its 8 big-endian bytes, base-62 encoded.
pub open spec fn spec_id_token(id: i64) -> Seq<char> {
    base62_chars(prefixed_value(id as u64))
}

pub open spec fn is_token_char(c: char) -> bool {
    ('0' <= c && c <= '9') || ('A' <= c && c <= 'Z') || ('a' <= c && c <= 'z')
}

pub open spec fn token_wellformed(s: Seq<char>) -> bool {
    forall|i: int| 0 <= i < s.len() ==> is_token_char(#[trigger] s[i])
}

/// Relies on `base_62::encode`: a non-empty byte slice is prefixed with the
/// byte 0x01, the whole is read as a big-endian unsigned number, and that
/// number is written in base-62 digits from the alphabet `0`-`9`, `A`-`Z`,
/// `a`-`z`, least significant digit first. The argument is converted to its
/// 8 big-endian bytes before the call.
#[verifier::external_body]
fn base62_encode_u64(u: u64) -> (r: String)
    ensures
        r@ == base62_chars(prefixed_value(u)),
{
    base_62::encode(&u.to_be_bytes())
}

/// Encodes a record id as its short token.
pub fn id_to_base62(id: i64) -> (r: String)
    ensures
        r@ == spec_id_token(id),
        r@.len() > 0,
        token_wellformed(r@),
{
    let r = base62_encode_u64(id as u64);
    proof {
        lemma_base62_chars_nonempty(prefixed_value(id as u64));
        lemma_base62_chars_wellformed(prefixed_value(id as u64));
    }
    r
}

proof fn lemma_base62_chars_nonempty(n: nat)
    requires
        n > 0,
    ensures
        base62_chars(n).len() > 0,
{
}

proof fn lemma_digit_wellformed(d: int)
    requires
        0 <= d < 62,
    ensures
        is_token_char(base62_digit(d)),
{
}

proof fn lemma_base62_chars_wellformed(n: nat)
    ensures
        token_wellformed(base62_chars(n)),
    decreases n,
{
    if n > 0 {
        lemma_digit_wellformed((n % 62) as int);
        lemma_base62_chars_wellformed(n / 62);
        assert forall|i: int| 0 <= i < base62_chars(n).len() implies is_token_char(
            #[trigger] base62_chars(n)[i],
        ) by {
            if i > 0 {
                assert(base62_chars(n)[i] == base62_chars(n / 62)[i - 1]);
            }
        }
    }
}

proof fn lemma_digit_injective(d1: int, d2: int)
    requires
        0 <= d1 < 62,
        0 <= d2 < 62,
        d1 != d2,
    ensures
        base62_digit(d1) != base62_digit(d2),
{
    assert(digit_code(d1) != digit_code(d2));
}

proof fn lemma_base62_chars_injective(m: nat, n: nat)
    requires
        base62_chars(m) == base62_chars(n),
    ensures
        m == n,
    decreases m,
{
    if m == 0 {
        if n != 0 {
            assert(base62_chars(n).len() > 0);
            assert(false);
        }
    } else if n == 0 {
        assert(base62_chars(m).len() > 0);
        assert(false);
    } else {
        let dm = (m % 62) as int;
        let dn = (n % 62) as int;
        assert(base62_chars(m)[0] == base62_digit(dm));
        assert(base62_chars(n)[0] == base62_digit(dn));
        if dm != dn {
            lemma_digit_injective(dm, dn);
            assert(false);
        }
        assert(base62_chars(m).subrange(1, base62_chars(m).len() as int) =~= base62_chars(m / 62));
        assert(base62_chars(n).subrange(1, base62_chars(n).len() as int) =~= base62_chars(n / 62));
        lemma_base62_chars_injective(m / 62, n / 62);
        lemma_fundamental_div_mod(m as int, 62);
        lemma_fundamental_div_mod(n as int, 62);
    }
}

/// Injectivity of the encoder: distinct non-negative ids always get distinct
/// tokens.
pub proof fn lemma_token_injective(a: i64, b: i64)
    requires
        0 <= a,
        0 <= b,
        a != b,
    ensures
        spec_id_token(a) != spec_id_token(b),
{
    if spec_id_token(a) == spec_id_token(b) {
        lemma_base62_chars_injective(prefixed_value(a as u64), prefixed_value(b as u64));
        assert(false);
    }
}

} // verus!
