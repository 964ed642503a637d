//! Base58 text of byte strings (Bitcoin alphabet), as Solana writes
//! addresses and secret keys.

use vstd::prelude::*;

verus! {

/// The character that stands for base58 digit `d` (Bitcoin alphabet:
/// `1-9`, `A-H`, `J-N`, `P-Z`, `a-k`, `m-z`; no `0`, `O`, `I`, `l`).
pub open spec fn digit_char(d: nat) -> char {
    if d < 9 {
        (49 + d) as char  // '1'..'9'
    } else if d < 17 {
        (65 + (d - 9)) as char  // 'A'..'H'
    } else if d < 22 {
        (74 + (d - 17)) as char  // 'J'..'N'
    } else if d < 33 {
        (80 + (d - 22)) as char  // 'P'..'Z'
    } else if d < 44 {
        (97 + (d - 33)) as char  // 'a'..'k'
    } else {
        (109 + (d - 44)) as char  // 'm'..'z'
    }
}

/// Whether `c` belongs to the base58 alphabet.
pub open spec fn in_alphabet(c: char) -> bool {
    ||| '1' <= c <= '9'
    ||| 'A' <= c <= 'H'
    ||| 'J' <= c <= 'N'
    ||| 'P' <= c <= 'Z'
    ||| 'a' <= c <= 'k'
    ||| 'm' <= c <= 'z'
}

/// The number that `bytes` spells in big-endian order.
pub open spec fn big_endian_value(bytes: Seq<u8>) -> nat
    decreases bytes.len(),
{
    if bytes.len() == 0 {
        0
    } else {
        big_endian_value(bytes.drop_last()) * 256 + bytes.last() as nat
    }
}

/// The base58 digits of `n`, most significant first; none for zero.
pub open spec fn digits_of(n: nat) -> Seq<char>
    decreases n,
{
    if n == 0 {
        Seq::empty()
    } else {
        digits_of(n / 58).push(digit_char(n % 58))
    }
}

/// How many zero bytes `bytes` starts with.
pub open spec fn leading_zeros(bytes: Seq<u8>) -> nat
    decreases bytes.len(),
{
    if bytes.len() > 0 && bytes[0] == 0 {
        1 + leading_zeros(bytes.drop_first())
    } else {
        0
    }
}

/// Base58 text of `bytes`: one `1` for each leading zero byte, then the
/// digits of the number the bytes spell.
pub open spec fn base58_text(bytes: Seq<u8>) -> Seq<char> {
    Seq::new(leading_zeros(bytes), |i: int| '1') + digits_of(big_endian_value(bytes))
}

/// Whether every character of `s` belongs to the base58 alphabet.
pub open spec fn all_in_alphabet(s: Seq<char>) -> bool {
    forall|i: int| 0 <= i < s.len() ==> in_alphabet(#[trigger] s[i])
}

pub proof fn lemma_digit_char_in_alphabet(d: nat)
    requires
        d < 58,
    ensures
        in_alphabet(digit_char(d)),
{
}

pub proof fn lemma_digits_in_alphabet(n: nat)
    ensures
        all_in_alphabet(digits_of(n)),
    decreases n,
{
    if n > 0 {
        lemma_digits_in_alphabet(n / 58);
        lemma_digit_char_in_alphabet(n % 58);
        assert(all_in_alphabet(digits_of(n)));
    }
}

/// Every character of the base58 text of any byte string belongs to the
/// alphabet.
pub proof fn lemma_base58_text_in_alphabet(bytes: Seq<u8>)
    ensures
        all_in_alphabet(base58_text(bytes)),
{
    lemma_digits_in_alphabet(big_endian_value(bytes));
    let z = Seq::new(leading_zeros(bytes), |i: int| '1');
    let t = base58_text(bytes);
    assert forall|i: int| 0 <= i < t.len() implies in_alphabet(#[trigger] t[i]) by {
        if i < z.len() {
            assert(t[i] == '1');
        } else {
            assert(t[i] == digits_of(big_endian_value(bytes))[i - z.len()]);
        }
    }
}

/// Text of base58 characters is ASCII text.
pub proof fn lemma_alphabet_text_is_ascii(s: Seq<char>)
    requires
        all_in_alphabet(s),
    ensures
        vstd::utf8::is_ascii_chars(s),
{
    assert forall|i: int| 0 <= i < s.len() implies '\0' <= #[trigger] s[i] <= '\u{7f}' by {
        assert(in_alphabet(s[i]));
    }
}

/// Whether `c` belongs to the base58 alphabet.
pub fn is_base58_char(c: char) -> (r: bool)
    ensures
        r == in_alphabet(c),
{
    ('1' <= c && c <= '9') || ('A' <= c && c <= 'H') || ('J' <= c && c <= 'N') || ('P' <= c
        && c <= 'Z') || ('a' <= c && c <= 'k') || ('m' <= c && c <= 'z')
}

/// Base58 text of `bytes`, by `bs58::encode(..).into_string()`.
/// Trusted: the text is the Bitcoin-alphabet base58 encoding of the bytes,
/// one `1` for each leading zero byte followed by the digits of the
/// big-endian number, as the crate's encoder computes it.
#[verifier::external_body]
pub(crate) fn base58_encode(bytes: &[u8]) -> (text: String)
    ensures
        text@ == base58_text(bytes@),
{
    bs58::encode(bytes).into_string()
}

} // verus!
