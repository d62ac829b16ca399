//! UUIDs written in base 58.

use vstd::prelude::*;

verus! {

/// The digit that stands for `d`, of
/// `123456789ABCDEFGHJKLMNPQRSTUVWXYZabcdefghijkmnopqrstuvwxyz`.
pub open spec fn digit(d: nat) -> char {
    if d < 9 {
        ('1' as nat + d) as char
    } else if d < 17 {
        ('A' as nat + (d - 9)) as char
    } else if d < 22 {
        ('J' as nat + (d - 17)) as char
    } else if d < 33 {
        ('P' as nat + (d - 22)) as char
    } else if d < 44 {
        ('a' as nat + (d - 33)) as char
    } else {
        ('m' as nat + (d - 44)) as char
    }
}

/// `n` in base 58, without leading zeros.
pub open spec fn digits(n: nat) -> Seq<char>
    decreases n,
{
    if n == 0 {
        Seq::empty()
    } else {
        digits(n / 58).push(digit(n % 58))
    }
}

/// How many bytes it takes to hold `n`.
pub open spec fn byte_len(n: nat) -> nat
    decreases n,
{
    if n == 0 {
        0
    } else {
        1 + byte_len(n / 256)
    }
}

/// The sixteen bytes of `uuid`, most significant first, in base 58: a zero for
/// each leading byte that is zero, and then the value of the others.
pub open spec fn base58(uuid: u128) -> Seq<char> {
    Seq::new((16 - byte_len(uuid as nat)) as nat, |i: int| digit(0)) + digits(uuid as nat)
}

/// Calls `bs58::encode` on the UUID that `uuid::Uuid::from_u128` makes of
/// `uuid`. Claims that the text is the UUID in base 58.
#[verifier::external_body]
pub(crate) fn base58_text(uuid: u128) -> (text: String)
    ensures
        text@ == base58(uuid),
{
    bs58::encode(uuid::Uuid::from_u128(uuid)).into_string()
}

/// UUIDs that are written the same are the same.
pub proof fn base58_injective(a: u128, b: u128)
    requires
        base58(a) == base58(b),
    ensures
        a == b,
{
    let s = base58(a);
    let p = (16 - byte_len(a as nat)) as nat;
    let q = (16 - byte_len(b as nat)) as nat;
    lemma_byte_len(a);
    lemma_byte_len(b);
    lemma_first_digit(a as nat);
    lemma_first_digit(b as nat);
    if p < q {
        assert(s[p as int] == digits(a as nat)[0]);
    }
    if q < p {
        assert(base58(b)[q as int] == digits(b as nat)[0]);
    }
    assert(digits(a as nat) =~= s.skip(p as int));
    assert(digits(b as nat) =~= base58(b).skip(q as int));
    lemma_digits_injective(a as nat, b as nat);
}

/// A UUID in base 58 takes at least sixteen digits.
pub proof fn base58_len(uuid: u128)
    ensures
        base58(uuid).len() >= 16,
{
    lemma_byte_len(uuid);
    lemma_digits_len(uuid as nat);
}

/// Different digits are written differently.
proof fn lemma_digit(d: nat, e: nat)
    requires
        d < 58,
        e < 58,
        digit(d) == digit(e),
    ensures
        d == e,
{
}

proof fn lemma_digits_injective(a: nat, b: nat)
    requires
        digits(a) == digits(b),
    ensures
        a == b,
    decreases a,
{
    if a > 0 && b > 0 {
        assert(digits(a).last() == digit(a % 58));
        assert(digits(b).last() == digit(b % 58));
        lemma_digit(a % 58, b % 58);
        assert(digits(a).drop_last() =~= digits(a / 58));
        assert(digits(b).drop_last() =~= digits(b / 58));
        lemma_digits_injective(a / 58, b / 58);
    } else if a > 0 {
        assert(digits(a).len() > 0);
    } else if b > 0 {
        assert(digits(b).len() > 0);
    }
}

/// Without leading zeros the first digit is not zero.
pub(crate) proof fn lemma_first_digit(n: nat)
    ensures
        n > 0 ==> digits(n).len() > 0 && digits(n)[0] != digit(0),
        n == 0 ==> byte_len(n) == 0,
    decreases n,
{
    if n > 0 {
        if n / 58 > 0 {
            lemma_first_digit(n / 58);
            assert(digits(n)[0] == digits(n / 58)[0]);
        } else {
            assert(digits(n / 58) =~= Seq::<char>::empty());
            assert(digits(n)[0] == digit(n % 58));
            lemma_digit_zero(n % 58);
        }
    }
}

proof fn lemma_digit_zero(d: nat)
    requires
        0 < d < 58,
    ensures
        digit(d) != digit(0),
{
}

/// A UUID takes no more than sixteen bytes.
proof fn lemma_byte_len(uuid: u128)
    ensures
        byte_len(uuid as nat) <= 16,
{
    reveal_with_fuel(byte_len, 9);
    let half = uuid as nat / 0x1_0000_0000_0000_0000;
    assert(byte_len(uuid as nat) <= 8 + byte_len(half));
    assert(byte_len(half) <= 8);
}

/// A number has at least as many digits as bytes.
proof fn lemma_digits_len(n: nat)
    ensures
        digits(n).len() >= byte_len(n),
    decreases n,
{
    if n > 0 {
        lemma_digits_len(n / 58);
        lemma_byte_len_monotonic(n / 256, n / 58);
    }
}

proof fn lemma_byte_len_monotonic(a: nat, b: nat)
    requires
        a <= b,
    ensures
        byte_len(a) <= byte_len(b),
    decreases b,
{
    if a > 0 {
        lemma_byte_len_monotonic(a / 256, b / 256);
    }
}

} // verus!
