//! The JSON text a keypair file holds: an array of the byte values.

use vstd::prelude::*;
use crate::text::push_char;

verus! {

/// The decimal digit character for `d`.
pub open spec fn digit(d: nat) -> char {
    (48 + d) as char
}

/// Decimal text of `n`, without leading zeros.
pub open spec fn decimal_text(n: nat) -> Seq<char>
    decreases n,
{
    if n < 10 {
        seq![digit(n)]
    } else {
        decimal_text(n / 10).push(digit(n % 10))
    }
}

/// The decimal texts of `bytes`, separated by commas.
pub open spec fn json_items(bytes: Seq<u8>) -> Seq<char>
    decreases bytes.len(),
{
    if bytes.len() == 0 {
        Seq::empty()
    } else if bytes.len() == 1 {
        decimal_text(bytes[0] as nat)
    } else {
        json_items(bytes.drop_last()) + seq![','] + decimal_text(bytes.last() as nat)
    }
}

/// Compact JSON array text of the byte values, e.g. `[1,20,255]`.
pub open spec fn json_byte_array(bytes: Seq<u8>) -> Seq<char> {
    seq!['['] + json_items(bytes) + seq![']']
}

#[verifier::external_type_specification]
#[verifier::external_body]
pub struct ExJsonError(serde_json::Error);

/// JSON text of a byte vector, by `serde_json::to_string`.
/// Trusted: when serialisation succeeds, the text is the compact array
/// of the decimal byte values (`[`, values joined by `,`, `]`), as
/// serde_json's compact formatter writes a sequence of `u8`. Nothing is
/// said of when it fails.
#[verifier::external_body]
fn serde_json_text(bytes: &Vec<u8>) -> (r: Result<String, serde_json::Error>)
    ensures
        r matches Ok(s) ==> s@ == json_byte_array(bytes@),
{
    serde_json::to_string(bytes)
}

fn digit_char(d: u8) -> (c: char)
    requires
        d < 10,
    ensures
        c == digit(d as nat),
{
    if d == 0 { '0' }
    else if d == 1 { '1' }
    else if d == 2 { '2' }
    else if d == 3 { '3' }
    else if d == 4 { '4' }
    else if d == 5 { '5' }
    else if d == 6 { '6' }
    else if d == 7 { '7' }
    else if d == 8 { '8' }
    else { '9' }
}

/// Appends the decimal text of `b`.
fn push_decimal(s: &mut String, b: u8)
    ensures
        final(s)@ == old(s)@ + decimal_text(b as nat),
{
    if b >= 100 {
        push_char(s, digit_char(b / 100));
    }
    if b >= 10 {
        push_char(s, digit_char((b / 10) % 10));
    }
    push_char(s, digit_char(b % 10));
    proof {
        let n = b as nat;
        if n >= 100 {
            assert(decimal_text(n / 100) == seq![digit(n / 100)]);
            assert((n / 10) / 10 == n / 100);
            assert(decimal_text(n / 10) == decimal_text(n / 100).push(digit((n / 10) % 10)));
        } else if n >= 10 {
            assert(decimal_text(n / 10) == seq![digit(n / 10)]);
        }
    }
}

/// The JSON array text of `bytes`, written out without serde.
pub fn byte_array_text(bytes: &[u8]) -> (r: String)
    ensures
        r@ == json_byte_array(bytes@),
{
    let mut r = String::new();
    push_char(&mut r, '[');
    let mut i: usize = 0;
    while i < bytes.len()
        invariant
            i <= bytes.len(),
            r@ == seq!['['] + json_items(bytes@.take(i as int)),
        decreases bytes.len() - i,
    {
        if i > 0 {
            push_char(&mut r, ',');
        }
        push_decimal(&mut r, bytes[i]);
        i = i + 1;
        proof {
            let t = bytes@.take(i as int);
            assert(t.drop_last() =~= bytes@.take(i - 1));
            assert(t.last() == bytes@[i - 1]);
            if i == 1 {
                assert(bytes@.take(0) =~= Seq::<u8>::empty());
            }
        }
    }
    push_char(&mut r, ']');
    assert(bytes@.take(bytes.len() as int) =~= bytes@);
    r
}

/// The JSON text stored in a keypair file: the byte values as a JSON
/// array, serialised by serde_json, or written out by hand should that
/// fail.
pub fn keypair_json(bytes: &[u8]) -> (r: String)
    ensures
        r@ == json_byte_array(bytes@),
{
    let arr = vstd::slice::slice_to_vec(bytes);
    match serde_json_text(&arr) {
        Ok(s) => s,
        Err(_) => byte_array_text(bytes),
    }
}

/// Whether `s` holds no comma.
pub open spec fn comma_free(s: Seq<char>) -> bool {
    forall|i: int| 0 <= i < s.len() ==> #[trigger] s[i] != ','
}

proof fn lemma_decimal_shape(n: nat)
    ensures
        decimal_text(n).len() >= 1,
        comma_free(decimal_text(n)),
        n < 10 <==> decimal_text(n).len() == 1,
    decreases n,
{
    if n >= 10 {
        lemma_decimal_shape(n / 10);
    }
}

/// Different numbers have different decimal texts.
proof fn lemma_decimal_injective(n: nat, m: nat)
    requires
        decimal_text(n) == decimal_text(m),
    ensures
        n == m,
    decreases n,
{
    lemma_decimal_shape(n);
    lemma_decimal_shape(m);
    if n >= 10 && m >= 10 {
        let dn = decimal_text(n);
        assert(dn.drop_last() == decimal_text(n / 10));
        assert(decimal_text(m).drop_last() == decimal_text(m / 10));
        assert(dn.last() == digit(n % 10));
        assert(decimal_text(m).last() == digit(m % 10));
        lemma_decimal_injective(n / 10, m / 10);
    } else {
        assert(decimal_text(n)[0] == digit(n));
        assert(decimal_text(m)[0] == digit(m));
    }
}

proof fn lemma_items_shape(b: Seq<u8>)
    ensures
        b.len() == 0 <==> json_items(b).len() == 0,
        b.len() == 1 ==> comma_free(json_items(b)),
        b.len() >= 2 ==> !comma_free(json_items(b)),
    decreases b.len(),
{
    if b.len() == 1 {
        lemma_decimal_shape(b[0] as nat);
    } else if b.len() >= 2 {
        lemma_items_shape(b.drop_last());
        let x = json_items(b.drop_last());
        lemma_decimal_shape(b.last() as nat);
        assert((x + seq![','] + decimal_text(b.last() as nat))[x.len() as int] == ',');
    }
}

/// When `x + , + d == y + , + e` with `d` and `e` comma-free, the pieces
/// agree.
proof fn lemma_split_at_last_comma(x: Seq<char>, d: Seq<char>, y: Seq<char>, e: Seq<char>)
    requires
        comma_free(d),
        comma_free(e),
        x + seq![','] + d == y + seq![','] + e,
    ensures
        x == y,
        d == e,
{
    let xc = x + seq![','];
    let yc = y + seq![','];
    let l = xc + d;
    let r = yc + e;
    assert(xc.len() == x.len() + 1);
    assert(yc.len() == y.len() + 1);
    assert(xc[x.len() as int] == ',');
    assert(yc[y.len() as int] == ',');
    assert(l == r);
    assert(l.len() == x.len() + 1 + d.len());
    assert(r.len() == y.len() + 1 + e.len());
    if d.len() < e.len() {
        let k = x.len() as int;
        assert(l[k] == xc[k]);
        assert(k >= yc.len());
        assert(r[k] == e[k - yc.len()]);
        assert(e[k - yc.len()] != ',');
        assert(false);
    } else if e.len() < d.len() {
        let k = y.len() as int;
        assert(r[k] == yc[k]);
        assert(k >= xc.len());
        assert(l[k] == d[k - xc.len()]);
        assert(d[k - xc.len()] != ',');
        assert(false);
    }
    assert(x =~= l.take(x.len() as int));
    assert(y =~= r.take(y.len() as int));
    assert(d =~= l.skip(x.len() as int + 1));
    assert(e =~= r.skip(y.len() as int + 1));
}

proof fn lemma_items_injective(a: Seq<u8>, b: Seq<u8>)
    requires
        json_items(a) == json_items(b),
    ensures
        a == b,
    decreases a.len(),
{
    lemma_items_shape(a);
    lemma_items_shape(b);
    if a.len() == 0 {
        assert(a =~= b);
    } else if a.len() == 1 {
        lemma_decimal_injective(a[0] as nat, b[0] as nat);
        assert(a =~= b);
    } else {
        lemma_decimal_shape(a.last() as nat);
        lemma_decimal_shape(b.last() as nat);
        lemma_split_at_last_comma(
            json_items(a.drop_last()),
            decimal_text(a.last() as nat),
            json_items(b.drop_last()),
            decimal_text(b.last() as nat),
        );
        lemma_items_injective(a.drop_last(), b.drop_last());
        lemma_decimal_injective(a.last() as nat, b.last() as nat);
        assert(a =~= a.drop_last().push(a.last()));
        assert(b =~= b.drop_last().push(b.last()));
    }
}

/// A keypair file's text determines its bytes: different byte strings
/// are written as different JSON texts, so reading the file gives back
/// the bytes that were saved.
pub proof fn lemma_json_byte_array_injective(a: Seq<u8>, b: Seq<u8>)
    requires
        json_byte_array(a) == json_byte_array(b),
    ensures
        a == b,
{
    let ta = json_byte_array(a);
    let tb = json_byte_array(b);
    assert(json_items(a) =~= ta.subrange(1, ta.len() as int - 1));
    assert(json_items(b) =~= tb.subrange(1, tb.len() as int - 1));
    lemma_items_injective(a, b);
}

/// The number that a text of decimal digits spells.
pub open spec fn decimal_value(d: Seq<char>) -> int
    decreases d.len(),
{
    if d.len() == 0 {
        0
    } else {
        decimal_value(d.drop_last()) * 10 + ((d.last() as int) - 48)
    }
}

/// A byte's decimal text reads back as the byte: it is made of digits,
/// has no leading zero, and spells the number.
pub proof fn lemma_decimal_reads_back(n: nat)
    ensures
        decimal_value(decimal_text(n)) == n,
        forall|i: int|
            0 <= i < decimal_text(n).len() ==> '0' <= #[trigger] decimal_text(n)[i] <= '9',
        decimal_text(n).len() > 1 ==> decimal_text(n)[0] != '0',
    decreases n,
{
    if n < 10 {
        let d = decimal_text(n);
        assert(d.drop_last() =~= Seq::<char>::empty());
        assert(d.last() == digit(n));
        assert(digit(n) as int == 48 + n);
        assert(decimal_value(d) == decimal_value(d.drop_last()) * 10 + ((d.last() as int) - 48));
    } else {
        lemma_decimal_reads_back(n / 10);
        let d = decimal_text(n);
        let e = decimal_text(n / 10);
        assert(d.drop_last() =~= e);
        assert(digit(n % 10) as int == 48 + n % 10);
        assert(d.last() == digit(n % 10));
        assert(decimal_value(d) == decimal_value(e) * 10 + ((d.last() as int) - 48));
        assert(n == (n / 10) * 10 + n % 10);
        assert forall|i: int| 0 <= i < d.len() implies '0' <= #[trigger] d[i] <= '9' by {
            if i < e.len() {
                assert(d[i] == e[i]);
            }
        }
        lemma_decimal_shape(n / 10);
        assert(d[0] == e[0]);
        if e.len() == 1 {
            assert(e[0] == digit(n / 10));
        }
    }
}

/// A keypair file's text is `[`, then for each byte its decimal text
/// (digits only, reading back as the byte), separated by commas, then
/// `]`: the i-th comma-separated number is the i-th byte.
pub proof fn lemma_json_items_read_back(bytes: Seq<u8>)
    ensures
        bytes.len() > 0 ==> json_items(bytes) == json_items(bytes.drop_last()) + (if bytes.len()
            > 1 {
            seq![',']
        } else {
            Seq::empty()
        }) + decimal_text(bytes.last() as nat),
        bytes.len() > 0 ==> decimal_value(decimal_text(bytes.last() as nat)) == bytes.last(),
        json_byte_array(bytes)[0] == '[',
        json_byte_array(bytes).last() == ']',
{
    if bytes.len() == 1 {
        assert(bytes.drop_last() =~= Seq::<u8>::empty());
        assert(bytes.last() == bytes[0]);
        assert(Seq::<char>::empty() + Seq::<char>::empty() + decimal_text(bytes[0] as nat)
            =~= decimal_text(bytes[0] as nat));
    }
    if bytes.len() > 0 {
        lemma_decimal_reads_back(bytes.last() as nat);
    }
}

} // verus!
