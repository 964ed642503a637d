//! The vanity pattern: a prefix and a suffix that an address must carry,
//! compared exactly or ignoring case.

use vstd::prelude::*;
use vstd::utf8::is_ascii_chars;
use crate::base58::{in_alphabet, is_base58_char, all_in_alphabet};
use crate::text::{
    ascii_lower,
    trimmed, lowercased, is_prefix_of, is_suffix_of, trim_text, lowercase_text, chars_of,
    has_prefix, has_suffix,
};

verus! {

/// What an address must look like: it starts with `prefix` and ends
/// with `suffix` (an empty one asks nothing), compared after lowercasing
/// both sides when `case_insensitive` is set.
pub struct VanityPattern {
    pub prefix: String,
    pub suffix: String,
    pub case_insensitive: bool,
}

/// Whether address text `address` satisfies a pattern with the given
/// prefix, suffix and case mode.
pub open spec fn accepts(
    address: Seq<char>,
    prefix: Seq<char>,
    suffix: Seq<char>,
    case_insensitive: bool,
) -> bool {
    let a = if case_insensitive { lowercased(address) } else { address };
    let p = if case_insensitive { lowercased(prefix) } else { prefix };
    let s = if case_insensitive { lowercased(suffix) } else { suffix };
    &&& (prefix.len() == 0 || is_prefix_of(p, a))
    &&& (suffix.len() == 0 || is_suffix_of(s, a))
}

/// `accepts` for ASCII text, where lowercasing turns `A`-`Z` into
/// `a`-`z` and leaves everything else.
pub open spec fn accepts_ascii(
    address: Seq<char>,
    prefix: Seq<char>,
    suffix: Seq<char>,
    case_insensitive: bool,
) -> bool {
    let a = if case_insensitive { ascii_lower(address) } else { address };
    let p = if case_insensitive { ascii_lower(prefix) } else { prefix };
    let s = if case_insensitive { ascii_lower(suffix) } else { suffix };
    &&& (prefix.len() == 0 || is_prefix_of(p, a))
    &&& (suffix.len() == 0 || is_suffix_of(s, a))
}

impl VanityPattern {
    /// Whether this pattern accepts address text `address`.
    pub open spec fn accepts_text(&self, address: Seq<char>) -> bool {
        accepts(address, self.prefix@, self.suffix@, self.case_insensitive)
    }

    /// Whether this pattern asks nothing of an address.
    pub open spec fn is_blank(&self) -> bool {
        self.prefix@.len() == 0 && self.suffix@.len() == 0
    }

    /// The pattern for a prefix and a suffix as typed: surrounding
    /// whitespace is dropped from both.
    pub fn new(prefix: &str, suffix: &str, case_insensitive: bool) -> (p: VanityPattern)
        ensures
            p.prefix@ == trimmed(prefix@),
            p.suffix@ == trimmed(suffix@),
            p.case_insensitive == case_insensitive,
    {
        VanityPattern {
            prefix: trim_text(prefix),
            suffix: trim_text(suffix),
            case_insensitive,
        }
    }

    /// Whether this pattern asks nothing of an address.
    pub fn blank(&self) -> (r: bool)
        ensures
            r == self.is_blank(),
    {
        self.prefix.as_str().is_empty() && self.suffix.as_str().is_empty()
    }

    /// Whether this pattern accepts the address text `address`.
    pub fn matches(&self, address: &str) -> (r: bool)
        ensures
            r == self.accepts_text(address@),
            is_ascii_chars(address@) && is_ascii_chars(self.prefix@) && is_ascii_chars(
                self.suffix@,
            ) ==> r == accepts_ascii(address@, self.prefix@, self.suffix@, self.case_insensitive),
    {
        let (a, p, s) = if self.case_insensitive {
            (
                chars_of(lowercase_text(address).as_str()),
                chars_of(lowercase_text(self.prefix.as_str()).as_str()),
                chars_of(lowercase_text(self.suffix.as_str()).as_str()),
            )
        } else {
            (chars_of(address), chars_of(self.prefix.as_str()), chars_of(self.suffix.as_str()))
        };
        let prefix_ok = self.prefix.as_str().is_empty() || has_prefix(a.as_slice(), p.as_slice());
        let suffix_ok = self.suffix.as_str().is_empty() || has_suffix(a.as_slice(), s.as_slice());
        prefix_ok && suffix_ok
    }
}

/// The position of the first character of `pattern` outside the base58
/// alphabet (such as `0`, `O`, `I` or `l`), if there is one.
pub fn first_non_base58_char(pattern: &str) -> (r: Option<usize>)
    ensures
        match r {
            Some(i) => {
                &&& i < pattern@.len()
                &&& !in_alphabet(pattern@[i as int])
                &&& forall|j: int| 0 <= j < i ==> in_alphabet(#[trigger] pattern@[j])
            },
            None => all_in_alphabet(pattern@),
        },
{
    let v = chars_of(pattern);
    let mut i: usize = 0;
    while i < v.len()
        invariant
            v@ == pattern@,
            i <= v.len(),
            forall|j: int| 0 <= j < i ==> in_alphabet(#[trigger] pattern@[j]),
        decreases v.len() - i,
    {
        if !is_base58_char(v[i]) {
            return Some(i);
        }
        i = i + 1;
    }
    None
}

/// Pattern with a character outside the base58 alphabet, compared
/// exactly, is accepted by no base58 address: no text whose characters
/// all lie in the alphabet starts (or ends) with such a prefix (suffix).
pub proof fn lemma_unmatchable_prefix_rejects(address: Seq<char>, prefix: Seq<char>, suffix: Seq<char>, i: int)
    requires
        all_in_alphabet(address),
        0 <= i < prefix.len(),
        !in_alphabet(prefix[i]),
    ensures
        !accepts(address, prefix, suffix, false),
{
    if is_prefix_of(prefix, address) {
        assert(address.take(prefix.len() as int)[i] == address[i]);
    }
}

/// The same for a suffix.
pub proof fn lemma_unmatchable_suffix_rejects(address: Seq<char>, prefix: Seq<char>, suffix: Seq<char>, i: int)
    requires
        all_in_alphabet(address),
        0 <= i < suffix.len(),
        !in_alphabet(suffix[i]),
    ensures
        !accepts(address, prefix, suffix, false),
{
    if is_suffix_of(suffix, address) {
        let k = address.len() - suffix.len();
        assert(address.skip(k)[i] == address[k + i]);
    }
}

/// A blank pattern accepts every address.
pub proof fn lemma_blank_accepts_all(address: Seq<char>, prefix: Seq<char>, suffix: Seq<char>, case_insensitive: bool)
    requires
        prefix.len() == 0,
        suffix.len() == 0,
    ensures
        accepts(address, prefix, suffix, case_insensitive),
{
}

/// 58 to the power `n`.
pub open spec fn pow58(n: nat) -> nat
    decreases n,
{
    if n == 0 {
        1
    } else {
        58 * pow58((n - 1) as nat)
    }
}

/// Average number of keys to try before an address carries a given
/// `len` pattern characters: half the number of base58 strings of that
/// length.
pub open spec fn average_attempts(len: nat) -> nat {
    pow58(len) / 2
}

/// Each pattern character adds a factor of 58 to the average number of
/// keys to try.
pub proof fn lemma_each_char_multiplies_by_58(len: nat)
    requires
        len >= 1,
    ensures
        average_attempts(len + 1) == 58 * average_attempts(len),
{
    lemma_pow58_even(len);
    assert(pow58(len + 1) == 58 * pow58(len));
}

proof fn lemma_pow58_even(n: nat)
    requires
        n >= 1,
    ensures
        pow58(n) % 2 == 0,
        pow58(n) >= 58,
    decreases n,
{
    if n > 1 {
        lemma_pow58_even((n - 1) as nat);
    } else {
        assert(pow58(0) == 1);
        assert(pow58(1) == 58);
    }
}

proof fn lemma_pow58_monotone(a: nat, b: nat)
    requires
        a <= b,
    ensures
        pow58(a) <= pow58(b),
    decreases b,
{
    if a < b {
        lemma_pow58_monotone(a, (b - 1) as nat);
    }
}

/// Average number of keys to try for a pattern of `len` characters, or
/// `None` where it does not fit in a `u128`.
pub fn expected_attempts(len: u32) -> (r: Option<u128>)
    ensures
        match r {
            Some(n) => n == average_attempts(len as nat) && pow58(len as nat) <= u128::MAX,
            None => pow58(len as nat) > u128::MAX,
        },
{
    let mut p: u128 = 1;
    let mut i: u32 = 0;
    while i < len
        invariant
            i <= len,
            p == pow58(i as nat),
        decreases len - i,
    {
        if p > u128::MAX / 58 {
            proof {
                lemma_pow58_monotone((i + 1) as nat, len as nat);
            }
            return None;
        }
        p = p * 58;
        i = i + 1;
    }
    Some(p / 2)
}

/// Lowercasing keeps an ASCII prefix a prefix.
proof fn lemma_lower_keeps_prefix(p: Seq<char>, a: Seq<char>)
    requires
        is_prefix_of(p, a),
    ensures
        is_prefix_of(ascii_lower(p), ascii_lower(a)),
{
    assert(ascii_lower(a).take(p.len() as int) =~= ascii_lower(p));
}

/// Lowercasing keeps an ASCII suffix a suffix.
proof fn lemma_lower_keeps_suffix(s: Seq<char>, a: Seq<char>)
    requires
        is_suffix_of(s, a),
    ensures
        is_suffix_of(ascii_lower(s), ascii_lower(a)),
{
    assert(ascii_lower(a).skip(a.len() - s.len()) =~= ascii_lower(s));
}

/// Ignoring case never loses a match: on ASCII text, what the exact
/// comparison accepts, the case-insensitive one accepts too.
pub proof fn lemma_exact_match_implies_caseless_match(
    address: Seq<char>,
    prefix: Seq<char>,
    suffix: Seq<char>,
)
    requires
        accepts_ascii(address, prefix, suffix, false),
    ensures
        accepts_ascii(address, prefix, suffix, true),
{
    if prefix.len() != 0 {
        lemma_lower_keeps_prefix(prefix, address);
    }
    if suffix.len() != 0 {
        lemma_lower_keeps_suffix(suffix, address);
    }
}

/// A prefix is a prefix position by position: `p` is a prefix of `a`
/// exactly when `a` is at least as long and agrees with `p` on its first
/// `p.len()` characters; a suffix likewise on its last ones.
pub proof fn lemma_prefix_suffix_by_position(p: Seq<char>, a: Seq<char>)
    ensures
        is_prefix_of(p, a) <==> (p.len() <= a.len() && forall|i: int|
            0 <= i < p.len() ==> a[i] == #[trigger] p[i]),
        is_suffix_of(p, a) <==> (p.len() <= a.len() && forall|i: int|
            0 <= i < p.len() ==> a[a.len() - p.len() + i] == #[trigger] p[i]),
{
    if p.len() <= a.len() {
        if forall|i: int| 0 <= i < p.len() ==> a[i] == #[trigger] p[i] {
            assert(a.take(p.len() as int) =~= p);
        }
        if is_prefix_of(p, a) {
            assert forall|i: int| 0 <= i < p.len() implies a[i] == #[trigger] p[i] by {
                assert(a.take(p.len() as int)[i] == a[i]);
            }
        }
        if forall|i: int| 0 <= i < p.len() ==> a[a.len() - p.len() + i] == #[trigger] p[i] {
            assert(a.skip(a.len() - p.len()) =~= p);
        }
        if is_suffix_of(p, a) {
            assert forall|i: int| 0 <= i < p.len() implies a[a.len() - p.len() + i] == #[trigger] p[
                i
            ] by {
                assert(a.skip(a.len() - p.len())[i] == a[a.len() - p.len() + i]);
            }
        }
    }
}

/// Compared exactly, an address is accepted exactly when it starts with
/// the prefix and ends with the suffix (an empty one asks nothing).
pub proof fn lemma_exact_accepts_iff_starts_and_ends(a: Seq<char>, p: Seq<char>, s: Seq<char>)
    ensures
        accepts(a, p, s, false) <==> (is_prefix_of(p, a) && is_suffix_of(s, a)),
        accepts_ascii(a, p, s, false) <==> (is_prefix_of(p, a) && is_suffix_of(s, a)),
{
    assert(a.take(0) =~= Seq::<char>::empty());
    assert(a.skip(a.len() as int) =~= Seq::<char>::empty());
    if p.len() == 0 {
        assert(p =~= Seq::<char>::empty());
    }
    if s.len() == 0 {
        assert(s =~= Seq::<char>::empty());
    }
}

/// Ignoring case, an address is accepted exactly when its lowercase form
/// starts with the lowercase prefix and ends with the lowercase suffix
/// (an empty prefix or suffix asks nothing).
pub proof fn lemma_caseless_accepts_iff_lowercase_starts_and_ends(
    a: Seq<char>,
    p: Seq<char>,
    s: Seq<char>,
)
    ensures
        accepts(a, p, s, true) <==> ((p.len() == 0 || is_prefix_of(lowercased(p), lowercased(a)))
            && (s.len() == 0 || is_suffix_of(lowercased(s), lowercased(a)))),
        accepts_ascii(a, p, s, true) <==> (is_prefix_of(ascii_lower(p), ascii_lower(a))
            && is_suffix_of(ascii_lower(s), ascii_lower(a))),
{
    let la = ascii_lower(a);
    assert(la.take(0) =~= Seq::<char>::empty());
    assert(la.skip(la.len() as int) =~= Seq::<char>::empty());
    if p.len() == 0 {
        assert(ascii_lower(p) =~= Seq::<char>::empty());
    }
    if s.len() == 0 {
        assert(ascii_lower(s) =~= Seq::<char>::empty());
    }
}

/// On ASCII text, ignoring case is comparing the lowercased texts
/// exactly.
pub proof fn lemma_caseless_is_exact_on_lowercased(a: Seq<char>, p: Seq<char>, s: Seq<char>)
    ensures
        accepts_ascii(a, p, s, true) == accepts_ascii(
            ascii_lower(a),
            ascii_lower(p),
            ascii_lower(s),
            false,
        ),
{
    lemma_caseless_accepts_iff_lowercase_starts_and_ends(a, p, s);
    lemma_exact_accepts_iff_starts_and_ends(ascii_lower(a), ascii_lower(p), ascii_lower(s));
}

} // verus!
