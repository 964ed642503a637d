//! Character-level text helpers shared by the pattern matcher, the JSON
//! writer and the report formatting.

use vstd::prelude::*;

verus! {

broadcast use vstd::string::axiom_spec_iter;

/// Whether `c` has the Unicode `White_Space` property, which `str::trim`
/// and `char::is_whitespace` go by.
pub open spec fn is_white_space(c: char) -> bool {
    ||| '\u{9}' <= c <= '\u{d}'
    ||| c == ' '
    ||| c == '\u{85}'
    ||| c == '\u{a0}'
    ||| c == '\u{1680}'
    ||| '\u{2000}' <= c <= '\u{200a}'
    ||| c == '\u{2028}'
    ||| c == '\u{2029}'
    ||| c == '\u{202f}'
    ||| c == '\u{205f}'
    ||| c == '\u{3000}'
}

/// `s` without its leading white space.
pub open spec fn trim_start(s: Seq<char>) -> Seq<char>
    decreases s.len(),
{
    if s.len() > 0 && is_white_space(s[0]) {
        trim_start(s.drop_first())
    } else {
        s
    }
}

/// `s` without its trailing white space.
pub open spec fn trim_end(s: Seq<char>) -> Seq<char>
    decreases s.len(),
{
    if s.len() > 0 && is_white_space(s.last()) {
        trim_end(s.drop_last())
    } else {
        s
    }
}

/// `s` without its leading and trailing white space, as `str::trim`
/// gives it.
pub open spec fn trimmed(s: Seq<char>) -> Seq<char> {
    trim_end(trim_start(s))
}

/// What `str::to_lowercase` gives for text `s`.
pub uninterp spec fn lowercased(s: Seq<char>) -> Seq<char>;

/// The lowercase form of an ASCII character: `A`-`Z` become `a`-`z`,
/// everything else stays.
pub open spec fn ascii_lower_char(c: char) -> char {
    if 'A' <= c <= 'Z' {
        ((c as u32) + 32) as char
    } else {
        c
    }
}

/// `s` with every ASCII capital letter lowercased.
pub open spec fn ascii_lower(s: Seq<char>) -> Seq<char> {
    s.map_values(|c: char| ascii_lower_char(c))
}

/// Whether `p` is a prefix of `s`.
pub open spec fn is_prefix_of(p: Seq<char>, s: Seq<char>) -> bool {
    p.len() <= s.len() && s.take(p.len() as int) == p
}

/// Whether `p` is a suffix of `s`.
pub open spec fn is_suffix_of(p: Seq<char>, s: Seq<char>) -> bool {
    p.len() <= s.len() && s.skip(s.len() - p.len()) == p
}

/// `s` followed by as many spaces as it takes to reach `width` characters.
pub open spec fn pad_right(s: Seq<char>, width: nat) -> Seq<char> {
    if s.len() >= width {
        s
    } else {
        s + Seq::new((width - s.len()) as nat, |i: int| ' ')
    }
}

/// Lowercase form of `s`, by `str::to_lowercase`.
/// Trusted: the result is what `str::to_lowercase` returns for the text;
/// of ASCII text it is the text with `A`-`Z` turned into `a`-`z`, as the
/// Unicode lowercase mapping of the ASCII range is. Nothing more is said
/// of other text.
#[verifier::external_body]
pub(crate) fn lowercase_text(s: &str) -> (r: String)
    ensures
        r@ == lowercased(s@),
        vstd::utf8::is_ascii_chars(s@) ==> r@ == ascii_lower(s@),
{
    s.to_lowercase()
}

/// Appends one character, by `String::push`.
/// Trusted: the string afterwards is the old one with `c` added at the end.
#[verifier::external_body]
pub(crate) fn push_char(s: &mut String, c: char)
    ensures
        final(s)@ == old(s)@.push(c),
{
    s.push(c);
}

/// The characters of `s`, in order.
pub fn chars_of(s: &str) -> (v: Vec<char>)
    ensures
        v@ == s@,
{
    let mut v: Vec<char> = Vec::new();
    for c in it: s.chars()
        invariant
            it.seq() == s@,
            v@ == it.seq().take(it.index() as int),
    {
        v.push(c);
    }
    v
}

/// Appends all characters of `t` to `s`.
pub fn push_chars(s: &mut String, t: &[char])
    ensures
        final(s)@ == old(s)@ + t@,
{
    let ghost start = s@;
    let mut i: usize = 0;
    while i < t.len()
        invariant
            i <= t.len(),
            s@ == start + t@.take(i as int),
        decreases t.len() - i,
    {
        push_char(s, t[i]);
        i = i + 1;
        assert(t@.take(i as int) == t@.take(i - 1).push(t@[i - 1]));
    }
    assert(t@.take(t.len() as int) == t@);
}

/// Appends the text `t` to `s`.
pub fn push_str(s: &mut String, t: &str)
    ensures
        final(s)@ == old(s)@ + t@,
{
    let v = chars_of(t);
    push_chars(s, v.as_slice());
}

/// Whether `p` is a prefix of `s`.
pub fn has_prefix(s: &[char], p: &[char]) -> (r: bool)
    ensures
        r == is_prefix_of(p@, s@),
{
    if p.len() > s.len() {
        return false;
    }
    let mut i: usize = 0;
    while i < p.len()
        invariant
            p.len() <= s.len(),
            i <= p.len(),
            forall|j: int| 0 <= j < i ==> s@[j] == p@[j],
        decreases p.len() - i,
    {
        if s[i] != p[i] {
            assert(s@.take(p.len() as int)[i as int] != p@[i as int]);
            return false;
        }
        i = i + 1;
    }
    assert(s@.take(p.len() as int) =~= p@);
    true
}

/// Whether `p` is a suffix of `s`.
pub fn has_suffix(s: &[char], p: &[char]) -> (r: bool)
    ensures
        r == is_suffix_of(p@, s@),
{
    if p.len() > s.len() {
        return false;
    }
    let off: usize = s.len() - p.len();
    let mut i: usize = 0;
    while i < p.len()
        invariant
            p.len() <= s.len(),
            off == s.len() - p.len(),
            i <= p.len(),
            forall|j: int| 0 <= j < i ==> s@[off + j] == p@[j],
        decreases p.len() - i,
    {
        if s[off + i] != p[i] {
            assert(s@.skip(off as int)[i as int] != p@[i as int]);
            return false;
        }
        i = i + 1;
    }
    assert(s@.skip(off as int) =~= p@);
    true
}

/// `s` padded on the right with spaces to `width` characters, as the
/// format specifier `{:<width}` lays it out.
pub fn padded(s: &str, width: usize) -> (r: String)
    ensures
        r@ == pad_right(s@, width as nat),
{
    let v = chars_of(s);
    let mut r = String::new();
    push_chars(&mut r, v.as_slice());
    let mut n: usize = v.len();
    while n < width
        invariant
            v.len() <= n <= width || (v.len() >= width && n == v.len()),
            v@ == s@,
            r@ == s@ + Seq::new((n - v.len()) as nat, |i: int| ' '),
        decreases width - n,
    {
        push_char(&mut r, ' ');
        n = n + 1;
        assert(r@ =~= s@ + Seq::new((n - v.len()) as nat, |i: int| ' '));
    }
    assert(r@ =~= pad_right(s@, width as nat));
    r
}

/// Whether `c` is white space (Unicode `White_Space`).
pub fn white_space(c: char) -> (r: bool)
    ensures
        r == is_white_space(c),
{
    ('\u{9}' <= c && c <= '\u{d}') || c == ' ' || c == '\u{85}' || c == '\u{a0}' || c
        == '\u{1680}' || ('\u{2000}' <= c && c <= '\u{200a}') || c == '\u{2028}' || c
        == '\u{2029}' || c == '\u{202f}' || c == '\u{205f}' || c == '\u{3000}'
}

/// `s` without its leading and trailing white space.
pub fn trim_text(s: &str) -> (r: String)
    ensures
        r@ == trimmed(s@),
{
    let v = chars_of(s);
    let mut i: usize = 0;
    assert(v@.skip(0) =~= v@);
    while i < v.len() && white_space(v[i])
        invariant
            v@ == s@,
            i <= v.len(),
            trim_start(s@) == trim_start(v@.skip(i as int)),
        decreases v.len() - i,
    {
        assert(v@.skip(i as int).drop_first() =~= v@.skip(i + 1));
        i = i + 1;
    }
    let ghost start = v@.skip(i as int);
    assert(trim_start(start) == start);
    let mut j: usize = v.len();
    assert(start =~= v@.subrange(i as int, j as int));
    while j > i && white_space(v[j - 1])
        invariant
            v@ == s@,
            i <= j <= v.len(),
            trim_end(start) == trim_end(v@.subrange(i as int, j as int)),
        decreases j,
    {
        assert(v@.subrange(i as int, j as int).drop_last() =~= v@.subrange(i as int, j - 1));
        j = j - 1;
    }
    let ghost kept = v@.subrange(i as int, j as int);
    assert(trim_end(kept) == kept);
    let mut r = String::new();
    let mut k: usize = i;
    while k < j
        invariant
            i <= k <= j <= v.len(),
            r@ == v@.subrange(i as int, k as int),
        decreases j - k,
    {
        push_char(&mut r, v[k]);
        k = k + 1;
        assert(r@ =~= v@.subrange(i as int, k as int));
    }
    r
}

proof fn lemma_trim_start_shape(s: Seq<char>) -> (k: int)
    ensures
        0 <= k <= s.len(),
        trim_start(s) == s.skip(k),
        forall|i: int| 0 <= i < k ==> is_white_space(#[trigger] s[i]),
        k < s.len() ==> !is_white_space(s[k]),
    decreases s.len(),
{
    if s.len() > 0 && is_white_space(s[0]) {
        let t = s.drop_first();
        let k1 = lemma_trim_start_shape(t);
        assert(t.skip(k1) =~= s.skip(k1 + 1));
        assert forall|i: int| 0 <= i < k1 + 1 implies is_white_space(#[trigger] s[i]) by {
            if i > 0 {
                assert(s[i] == t[i - 1]);
            }
        }
        if k1 + 1 < s.len() {
            assert(s[k1 + 1] == t[k1]);
        }
        k1 + 1
    } else {
        assert(s.skip(0) =~= s);
        0
    }
}

proof fn lemma_trim_end_shape(s: Seq<char>) -> (k: int)
    ensures
        0 <= k <= s.len(),
        trim_end(s) == s.take(k),
        forall|i: int| k <= i < s.len() ==> is_white_space(#[trigger] s[i]),
        k > 0 ==> !is_white_space(s[k - 1]),
    decreases s.len(),
{
    if s.len() > 0 && is_white_space(s.last()) {
        let t = s.drop_last();
        let k1 = lemma_trim_end_shape(t);
        assert(t.take(k1) =~= s.take(k1));
        assert forall|i: int| k1 <= i < s.len() implies is_white_space(#[trigger] s[i]) by {
            if i < s.len() - 1 {
                assert(s[i] == t[i]);
            }
        }
        if k1 > 0 {
            assert(s[k1 - 1] == t[k1 - 1]);
        }
        k1
    } else {
        assert(s.take(s.len() as int) =~= s);
        s.len() as int
    }
}

/// Trimming keeps one contiguous stretch of the text: it drops only
/// white space, from the start up to the first other character and from
/// the last other character to the end, and keeps everything between.
pub proof fn lemma_trimmed_shape(s: Seq<char>) -> (ij: (int, int))
    ensures
        0 <= ij.0 <= ij.1 <= s.len(),
        trimmed(s) == s.subrange(ij.0, ij.1),
        forall|k: int| 0 <= k < ij.0 ==> is_white_space(#[trigger] s[k]),
        forall|k: int| ij.1 <= k < s.len() ==> is_white_space(#[trigger] s[k]),
        ij.0 < ij.1 ==> !is_white_space(s[ij.0]) && !is_white_space(s[ij.1 - 1]),
{
    let a = lemma_trim_start_shape(s);
    let t = s.skip(a);
    let b = lemma_trim_end_shape(t);
    assert(t.take(b) =~= s.subrange(a, a + b));
    assert forall|k: int| a + b <= k < s.len() implies is_white_space(#[trigger] s[k]) by {
        assert(s[k] == t[k - a]);
    }
    if b > 0 {
        assert(s[a + b - 1] == t[b - 1]);
    }
    (a, a + b)
}

} // verus!
