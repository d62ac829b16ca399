//! What a UUID in base 58 reads as.

use vstd::prelude::*;

verus! {

/// The value of digits in base 58, most significant first.
pub open spec fn horner(digits: Seq<int>) -> int
    decreases digits.len(),
{
    if digits.len() == 0 {
        0
    } else {
        horner(digits.drop_last()) * 58 + digits.last()
    }
}

/// `text` is written with `digits`, each by its character of the alphabet.
pub open spec fn spells(text: Seq<char>, digits: Seq<int>) -> bool {
    &&& text.len() == digits.len()
    &&& forall|i: int|
        0 <= i < text.len() ==> 0 <= #[trigger] digits[i] < 58 && text[i]
            == "123456789ABCDEFGHJKLMNPQRSTUVWXYZabcdefghijkmnopqrstuvwxyz"@[digits[i]]
}

proof fn lemma_alphabet(d: nat)
    requires
        d < 58,
    ensures
        crate::base58::digit(d)
            == "123456789ABCDEFGHJKLMNPQRSTUVWXYZabcdefghijkmnopqrstuvwxyz"@[d as int],
{
    reveal_strlit("123456789ABCDEFGHJKLMNPQRSTUVWXYZabcdefghijkmnopqrstuvwxyz");
}

/// The digits of `n`.
spec fn values(n: nat) -> Seq<int>
    decreases n,
{
    if n == 0 {
        Seq::empty()
    } else {
        values(n / 58).push((n % 58) as int)
    }
}

proof fn lemma_values(n: nat)
    ensures
        spells(crate::base58::digits(n), values(n)),
        horner(values(n)) == n,
    decreases n,
{
    if n > 0 {
        lemma_values(n / 58);
        lemma_alphabet(n % 58);
        assert(values(n).drop_last() =~= values(n / 58));
        assert(values(n).last() == n % 58);
    }
}

proof fn lemma_leading_zeros(zeros: nat, digits: Seq<int>)
    ensures
        horner(Seq::new(zeros, |i: int| 0int) + digits) == horner(digits),
    decreases zeros + digits.len(),
{
    let all = Seq::new(zeros, |i: int| 0int) + digits;
    if digits.len() > 0 {
        assert(all.drop_last() =~= Seq::new(zeros, |i: int| 0int) + digits.drop_last());
        assert(all.last() == digits.last());
        lemma_leading_zeros(zeros, digits.drop_last());
    } else if zeros > 0 {
        let fewer = (zeros - 1) as nat;
        assert(all.drop_last() =~= Seq::new(fewer, |i: int| 0int) + digits);
        assert(all.last() == 0);
        lemma_leading_zeros(fewer, digits);
    } else {
        assert(all =~= digits);
    }
}

/// Read as a number in base 58, the text of a UUID is the UUID.
pub proof fn texts_read_as_their_uuid(uuid: u128)
    ensures
        exists|digits: Seq<int>| #[trigger]
            spells(crate::base58::base58(uuid), digits) && horner(digits) == uuid,
{
    let zeros = (16 - crate::base58::byte_len(uuid as nat)) as nat;
    let rest = values(uuid as nat);
    let digits = Seq::new(zeros, |i: int| 0int) + rest;
    lemma_values(uuid as nat);
    lemma_leading_zeros(zeros, rest);
    lemma_alphabet(0);
    let text = crate::base58::base58(uuid);
    assert forall|i: int| 0 <= i < text.len() implies 0 <= #[trigger] digits[i] < 58 && text[i]
        == "123456789ABCDEFGHJKLMNPQRSTUVWXYZabcdefghijkmnopqrstuvwxyz"@[digits[i]] by {
        if i >= zeros {
            assert(digits[i] == rest[i - zeros]);
            assert(text[i] == crate::base58::digits(uuid as nat)[i - zeros]);
        }
    }
    assert(spells(text, digits));
}

/// A UUID whose first bytes are zero starts with a digit of no value for each
/// of them, and then with one of some value.
pub proof fn leading_bytes_are_written(uuid: u128, zeros: nat)
    requires
        zeros <= 16,
        uuid == 0 ==> zeros == 16,
        uuid != 0 ==> vstd::arithmetic::power::pow(256, (15 - zeros) as nat) <= uuid
            < vstd::arithmetic::power::pow(256, (16 - zeros) as nat) && zeros < 16,
    ensures
        crate::base58::base58(uuid).len() >= zeros,
        forall|i: int| 0 <= i < zeros ==> #[trigger] crate::base58::base58(uuid)[i] == '1',
        uuid != 0 ==> crate::base58::base58(uuid).len() > zeros && crate::base58::base58(
            uuid,
        )[zeros as int] != '1',
{
    lemma_byte_len_bounds(uuid as nat, (16 - zeros) as nat);
    crate::base58::lemma_first_digit(uuid as nat);
    assert(crate::base58::byte_len(uuid as nat) == 16 - zeros);
}

proof fn lemma_byte_len_bounds(n: nat, k: nat)
    requires
        n == 0 ==> k == 0,
        n > 0 ==> k > 0 && vstd::arithmetic::power::pow(256, (k - 1) as nat) <= n
            < vstd::arithmetic::power::pow(256, k),
    ensures
        crate::base58::byte_len(n) == k,
    decreases n,
{
    if n > 0 {
        vstd::arithmetic::power::lemma_pow0(256);
        vstd::arithmetic::power::lemma_pow1(256);
        let low = vstd::arithmetic::power::pow(256, (k - 1) as nat);
        let high = vstd::arithmetic::power::pow(256, k);
        reveal(vstd::arithmetic::power::pow);
        assert(high == 256 * low);
        if k > 1 {
            let lower = vstd::arithmetic::power::pow(256, (k - 2) as nat);
            assert(low == 256 * lower);
            assert(lower <= n / 256 < low) by (nonlinear_arith)
                requires
                    256 * lower <= n,
                    n < 256 * low,
            ;
            assert(n / 256 > 0) by {
                assert(n >= 256) by {
                    vstd::arithmetic::power::lemma_pow_positive(256, (k - 2) as nat);
                }
            }
            lemma_byte_len_bounds(n / 256, (k - 1) as nat);
        } else {
            assert(low == 1);
            assert(n / 256 == 0);
            assert(crate::base58::byte_len(0) == 0);
        }
    }
}

} // verus!
