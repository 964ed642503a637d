//! What the search reports: the CPU model named in `/proc/cpuinfo`, the
//! rows of the hardware table, and the unit a duration is shown in.

use vstd::prelude::*;
use vstd::utf8::{encode_utf8, decode_utf8};
use vstd::string::StringSliceAdditionalSpecFns;
use crate::text::{
    is_white_space, trim_start, trim_end,
    trimmed, is_prefix_of, pad_right, trim_text, chars_of, push_chars, push_str, padded,
    has_prefix,
};

verus! {

broadcast use vstd::utf8::encode_utf8_decode_utf8;

// ----- CPU model name -----

/// Lines of `t` after the characters `cur` of an unfinished line, as
/// `str::lines` yields them: split at `\n`, a `\r` right before the
/// `\n` dropped, and no empty line after a final `\n`.
pub open spec fn lines_from(t: Seq<char>, cur: Seq<char>) -> Seq<Seq<char>>
    decreases t.len(),
{
    if t.len() == 0 {
        if cur.len() == 0 {
            Seq::empty()
        } else {
            seq![cur]
        }
    } else if t[0] == '\n' {
        seq![strip_cr(cur)] + lines_from(t.drop_first(), Seq::empty())
    } else {
        lines_from(t.drop_first(), cur.push(t[0]))
    }
}

/// `line` without one final `\r`.
pub open spec fn strip_cr(line: Seq<char>) -> Seq<char> {
    if line.len() > 0 && line.last() == '\r' {
        line.drop_last()
    } else {
        line
    }
}

/// The lines of `t`, as `str::lines` yields them.
pub open spec fn text_lines(t: Seq<char>) -> Seq<Seq<char>> {
    lines_from(t, Seq::empty())
}

/// The first of `lines` that starts with `key`.
pub open spec fn first_line_starting(lines: Seq<Seq<char>>, key: Seq<char>) -> Option<Seq<char>>
    decreases lines.len(),
{
    if lines.len() == 0 {
        None
    } else if is_prefix_of(key, lines[0]) {
        Some(lines[0])
    } else {
        first_line_starting(lines.drop_first(), key)
    }
}

/// The characters of `l` up to its first `:`, or all of them.
pub open spec fn up_to_colon(l: Seq<char>) -> Seq<char>
    decreases l.len(),
{
    if l.len() == 0 || l[0] == ':' {
        Seq::empty()
    } else {
        seq![l[0]] + up_to_colon(l.drop_first())
    }
}

/// The second `:`-separated field of `l` (what `split(':').nth(1)`
/// gives): the text between its first `:` and the next one or the end.
pub open spec fn second_field(l: Seq<char>) -> Option<Seq<char>>
    decreases l.len(),
{
    if l.len() == 0 {
        None
    } else if l[0] == ':' {
        Some(up_to_colon(l.drop_first()))
    } else {
        second_field(l.drop_first())
    }
}

/// The key of the `/proc/cpuinfo` line that names the CPU.
pub open spec fn model_key() -> Seq<char> {
    seq!['m', 'o', 'd', 'e', 'l', ' ', 'n', 'a', 'm', 'e']
}

/// The name shown when no CPU model is found.
pub open spec fn unknown_cpu() -> Seq<char> {
    seq!['U', 'n', 'k', 'n', 'o', 'w', 'n', ' ', 'C', 'P', 'U']
}

/// The CPU model that `/proc/cpuinfo` text `t` names: the second field
/// of its first `model name` line, trimmed; `Unknown CPU` without one.
pub open spec fn cpu_model(t: Seq<char>) -> Seq<char> {
    match first_line_starting(text_lines(t), model_key()) {
        Some(line) => match second_field(line) {
            Some(f) => trimmed(f),
            None => unknown_cpu(),
        },
        None => unknown_cpu(),
    }
}

fn string_of(v: &[char]) -> (s: String)
    ensures
        s@ == v@,
{
    let mut s = String::new();
    push_chars(&mut s, v);
    s
}

/// The characters of `cur` without one final `\r`.
fn strip_cr_exec(cur: &Vec<char>) -> (r: Vec<char>)
    ensures
        r@ == strip_cr(cur@),
{
    let mut r = cur.clone();
    if r.len() > 0 && r[r.len() - 1] == '\r' {
        r.pop();
    }
    r
}

/// The first line of `t` that starts with `key`.
fn find_line(t: &[char], key: &[char]) -> (r: Option<Vec<char>>)
    ensures
        match r {
            Some(l) => first_line_starting(text_lines(t@), key@) == Some(l@),
            None => first_line_starting(text_lines(t@), key@) is None,
        },
{
    let mut cur: Vec<char> = Vec::new();
    let mut i: usize = 0;
    assert(t@.skip(0) =~= t@);
    while i < t.len()
        invariant
            i <= t.len(),
            first_line_starting(text_lines(t@), key@) == first_line_starting(
                lines_from(t@.skip(i as int), cur@),
                key@,
            ),
        decreases t.len() - i,
    {
        let ghost rest = t@.skip(i as int);
        assert(rest.drop_first() =~= t@.skip(i + 1));
        let c = t[i];
        if c == '\n' {
            let line = strip_cr_exec(&cur);
            let ghost ls = lines_from(rest, cur@);
            assert(ls == seq![strip_cr(cur@)] + lines_from(t@.skip(i + 1), Seq::empty()));
            assert(ls[0] == line@);
            assert(ls.drop_first() =~= lines_from(t@.skip(i + 1), Seq::empty()));
            if has_prefix(line.as_slice(), key) {
                return Some(line);
            }
            cur = Vec::new();
        } else {
            cur.push(c);
        }
        i = i + 1;
    }
    assert(t@.skip(i as int) =~= Seq::<char>::empty());
    assert(seq![cur@].drop_first() =~= Seq::<Seq<char>>::empty());
    if cur.len() > 0 && has_prefix(cur.as_slice(), key) {
        return Some(cur);
    }
    assert(first_line_starting(Seq::<Seq<char>>::empty(), key@) is None);
    if cur.len() > 0 {
        assert(lines_from(t@.skip(i as int), cur@) == seq![cur@]);
    } else {
        assert(lines_from(t@.skip(i as int), cur@) == Seq::<Seq<char>>::empty());
    }
    None
}

/// The second `:`-separated field of line `l`.
fn second_field_exec(l: &[char]) -> (r: Option<Vec<char>>)
    ensures
        match r {
            Some(f) => second_field(l@) == Some(f@),
            None => second_field(l@) is None,
        },
{
    let mut i: usize = 0;
    assert(l@.skip(0) =~= l@);
    while i < l.len()
        invariant
            i <= l.len(),
            second_field(l@) == second_field(l@.skip(i as int)),
        decreases l.len() - i,
    {
        assert(l@.skip(i as int).drop_first() =~= l@.skip(i + 1));
        if l[i] == ':' {
            let mut f: Vec<char> = Vec::new();
            let mut j: usize = i + 1;
            assert(l@.skip(j as int) =~= l@.skip(i as int).drop_first());
            while j < l.len() && l[j] != ':'
                invariant
                    i < j <= l.len(),
                    up_to_colon(l@.skip(i + 1)) == f@ + up_to_colon(l@.skip(j as int)),
                decreases l.len() - j,
            {
                assert(l@.skip(j as int).drop_first() =~= l@.skip(j + 1));
                assert(up_to_colon(l@.skip(j as int)) == seq![l@[j as int]] + up_to_colon(
                    l@.skip(j + 1),
                ));
                f.push(l[j]);
                j = j + 1;
                assert(f@ + up_to_colon(l@.skip(j as int)) =~= f@.drop_last() + (seq![
                    f@.last(),
                ] + up_to_colon(l@.skip(j as int))));
            }
            assert(up_to_colon(l@.skip(j as int)) =~= Seq::<char>::empty());
            assert(f@ + Seq::<char>::empty() =~= f@);
            return Some(f);
        }
        i = i + 1;
    }
    None
}

/// The CPU model named in `/proc/cpuinfo` text `cpuinfo`, or
/// `Unknown CPU`.
pub fn cpu_model_name(cpuinfo: &str) -> (r: String)
    ensures
        r@ == cpu_model(cpuinfo@),
{
    let t = chars_of(cpuinfo);
    let key = ['m', 'o', 'd', 'e', 'l', ' ', 'n', 'a', 'm', 'e'];
    let ghost key_seq = key@;
    assert(key_seq =~= model_key());
    let unknown = ['U', 'n', 'k', 'n', 'o', 'w', 'n', ' ', 'C', 'P', 'U'];
    assert(unknown@ =~= unknown_cpu());
    match find_line(t.as_slice(), key.as_slice()) {
        Some(line) => match second_field_exec(line.as_slice()) {
            Some(f) => {
                let field = string_of(f.as_slice());
                trim_text(field.as_str())
            },
            None => string_of(unknown.as_slice()),
        },
        None => string_of(unknown.as_slice()),
    }
}

// ----- Hardware table -----

/// The table's column separator with the spaces around it.
pub open spec fn separator() -> Seq<char> {
    seq![' ', '\u{2502}', ' ']
}

/// The mark after the device label: an arrow for the device that will
/// search, blanks for the other.
pub open spec fn selection_mark(selected: bool) -> Seq<char> {
    if selected {
        seq![' ', '\u{25c4}']
    } else {
        seq![' ', ' ']
    }
}

/// Text `s` cut to its first `n` UTF-8 bytes (whole when shorter).
pub open spec fn first_bytes(s: Seq<char>, n: nat) -> Seq<char> {
    if encode_utf8(s).len() <= n {
        s
    } else {
        decode_utf8(encode_utf8(s).take(n as int))
    }
}

/// One row of the hardware table: device kind with its selection mark
/// in 12 columns, the name cut to 20 bytes in 20 columns, the speed text
/// in 18 columns.
pub open spec fn table_row_text(
    kind: Seq<char>,
    selected: bool,
    name: Seq<char>,
    speed: Seq<char>,
) -> Seq<char> {
    seq!['\u{2502}', ' '] + pad_right(kind + selection_mark(selected), 12) + separator()
        + pad_right(first_bytes(name, 20), 20) + separator() + pad_right(speed, 18) + seq![
        ' ',
        '\u{2502}',
    ]
}

/// Whether `name` can be cut after its first 20 bytes: it is no longer,
/// or a character ends there. (Its length in bytes fits in `usize`, as
/// that of any text in memory does.)
pub open spec fn cuttable_at_20(name: &str) -> bool {
    &&& name.spec_bytes().len() <= usize::MAX
    &&& name.spec_bytes().len() > 20 ==> vstd::utf8::is_char_boundary(name.spec_bytes(), 20)
}

/// `name` cut to its first 20 bytes.
fn first_20_bytes(name: &str) -> (r: &str)
    requires
        cuttable_at_20(name),
    ensures
        r@ == first_bytes(name@, 20),
{
    if name.len() <= 20 {
        name
    } else {
        let (head, _tail) = name.split_at(20);
        assert(head.spec_bytes() =~= encode_utf8(name@).take(20));
        assert(decode_utf8(encode_utf8(head@)) == head@);
        head
    }
}

/// One row of the hardware table, as the report prints it.
pub fn table_row(kind: &str, selected: bool, name: &str, speed: &str) -> (r: String)
    requires
        cuttable_at_20(name),
    ensures
        r@ == table_row_text(kind@, selected, name@, speed@),
{
    let bar = ['\u{2502}', ' '];
    let sep = [' ', '\u{2502}', ' '];
    let end = [' ', '\u{2502}'];
    let mark = if selected {
        [' ', '\u{25c4}']
    } else {
        [' ', ' ']
    };
    let mut label = String::new();
    push_str(&mut label, kind);
    push_chars(&mut label, mark.as_slice());
    let mut r = String::new();
    push_chars(&mut r, bar.as_slice());
    let label_col = padded(label.as_str(), 12);
    push_str(&mut r, label_col.as_str());
    push_chars(&mut r, sep.as_slice());
    let name_col = padded(first_20_bytes(name), 20);
    push_str(&mut r, name_col.as_str());
    push_chars(&mut r, sep.as_slice());
    let speed_col = padded(speed, 18);
    push_str(&mut r, speed_col.as_str());
    push_chars(&mut r, end.as_slice());
    assert(mark@ =~= selection_mark(selected));
    assert(sep@ =~= separator());
    assert(r@ =~= table_row_text(kind@, selected, name@, speed@));
    r
}

// ----- Durations -----

/// The unit a duration is shown in.
#[derive(PartialEq, Eq, Structural, Clone, Copy, Debug)]
pub enum TimeUnit {
    Seconds,
    Minutes,
    Hours,
    Days,
    Years,
}

/// Seconds in a 365-day year.
pub const SECONDS_PER_YEAR: u64 = 31_536_000;

/// The unit for a duration of `secs` whole seconds: seconds below a
/// minute, minutes below an hour, hours below a day, days below 365
/// days, years beyond.
pub open spec fn unit_for(secs: nat) -> TimeUnit {
    if secs < 60 {
        TimeUnit::Seconds
    } else if secs < 3600 {
        TimeUnit::Minutes
    } else if secs < 86400 {
        TimeUnit::Hours
    } else if secs < SECONDS_PER_YEAR {
        TimeUnit::Days
    } else {
        TimeUnit::Years
    }
}

/// The unit for a duration of `whole_secs` whole seconds. A fractional
/// duration falls under the same unit as its whole seconds, since every
/// boundary is a whole number of seconds.
pub fn duration_unit(whole_secs: u64) -> (u: TimeUnit)
    ensures
        u == unit_for(whole_secs as nat),
{
    if whole_secs < 60 {
        TimeUnit::Seconds
    } else if whole_secs < 3600 {
        TimeUnit::Minutes
    } else if whole_secs < 86400 {
        TimeUnit::Hours
    } else if whole_secs < SECONDS_PER_YEAR {
        TimeUnit::Days
    } else {
        TimeUnit::Years
    }
}

impl TimeUnit {
    /// The letter written after a number in this unit.
    pub open spec fn letter(self) -> char {
        match self {
            TimeUnit::Seconds => 's',
            TimeUnit::Minutes => 'm',
            TimeUnit::Hours => 'h',
            TimeUnit::Days => 'd',
            TimeUnit::Years => 'y',
        }
    }

    /// The letter written after a number in this unit.
    pub fn suffix(&self) -> (c: char)
        ensures
            c == self.letter(),
    {
        match self {
            TimeUnit::Seconds => 's',
            TimeUnit::Minutes => 'm',
            TimeUnit::Hours => 'h',
            TimeUnit::Days => 'd',
            TimeUnit::Years => 'y',
        }
    }
}

/// A longer duration never takes a smaller unit.
pub proof fn lemma_unit_monotone(a: nat, b: nat)
    requires
        a <= b,
    ensures
        unit_rank(unit_for(a)) <= unit_rank(unit_for(b)),
{
}

/// A duration's unit is reached by counting the boundaries it passes:
/// one minute, sixty minutes, twenty-four hours, 365 days.
pub proof fn lemma_unit_counts_boundaries(secs: nat)
    ensures
        unit_rank(unit_for(secs)) == (if secs >= 60 { 1nat } else { 0 }) + (if secs >= 60 * 60 {
            1nat
        } else {
            0
        }) + (if secs >= 24 * 60 * 60 { 1nat } else { 0 }) + (if secs >= 365 * 24 * 60 * 60 {
            1nat
        } else {
            0
        }),
{
}

/// The position of a unit from seconds (0) to years (4).
pub open spec fn unit_rank(u: TimeUnit) -> nat {
    match u {
        TimeUnit::Seconds => 0,
        TimeUnit::Minutes => 1,
        TimeUnit::Hours => 2,
        TimeUnit::Days => 3,
        TimeUnit::Years => 4,
    }
}

// ----- Laws of the report texts -----

proof fn lemma_lines_first_line(l: Seq<char>, rest: Seq<char>, cur: Seq<char>)
    requires
        forall|i: int| 0 <= i < l.len() ==> #[trigger] l[i] != '\n',
    ensures
        lines_from(l + seq!['\n'] + rest, cur) == seq![strip_cr(cur + l)] + lines_from(
            rest,
            Seq::empty(),
        ),
    decreases l.len(),
{
    let t = l + seq!['\n'] + rest;
    if l.len() == 0 {
        assert(t.drop_first() =~= rest);
        assert(cur + l =~= cur);
    } else {
        assert(t[0] == l[0]);
        assert(t.drop_first() =~= l.drop_first() + seq!['\n'] + rest);
        lemma_lines_first_line(l.drop_first(), rest, cur.push(l[0]));
        assert(cur.push(l[0]) + l.drop_first() =~= cur + l);
    }
}

proof fn lemma_second_field_after(x: Seq<char>, y: Seq<char>)
    requires
        forall|i: int| 0 <= i < x.len() ==> #[trigger] x[i] != ':',
    ensures
        second_field(x + seq![':'] + y) == Some(up_to_colon(y)),
    decreases x.len(),
{
    let l = x + seq![':'] + y;
    if x.len() == 0 {
        assert(l.drop_first() =~= y);
    } else {
        assert(l[0] == x[0]);
        assert(l.drop_first() =~= x.drop_first() + seq![':'] + y);
        lemma_second_field_after(x.drop_first(), y);
    }
}

proof fn lemma_up_to_colon_whole(y: Seq<char>)
    requires
        forall|i: int| 0 <= i < y.len() ==> #[trigger] y[i] != ':',
    ensures
        up_to_colon(y) == y,
    decreases y.len(),
{
    if y.len() > 0 {
        lemma_up_to_colon_whole(y.drop_first());
        assert(seq![y[0]] + y.drop_first() =~= y);
    }
}

/// The CPU model is read whole from a `model name` line: for any name
/// without `:` or line breaks and without surrounding white space, the
/// text `model name\t: <name>` followed by further lines gives that name
/// back unchanged, however long it is.
pub proof fn lemma_cpu_model_reads_whole_name(n: Seq<char>, rest: Seq<char>)
    requires
        forall|i: int| 0 <= i < n.len() ==> #[trigger] n[i] != ':' && n[i] != '\n',
        n.len() > 0 ==> !is_white_space(n[0]) && !is_white_space(n.last()),
    ensures
        cpu_model(model_key() + seq!['\t', ':', ' '] + n + seq!['\n'] + rest) == n,
{
    let head = model_key() + seq!['\t'];
    let line = head + seq![':'] + (seq![' '] + n);
    assert(model_key() + seq!['\t', ':', ' '] + n =~= line);
    assert forall|i: int| 0 <= i < line.len() implies #[trigger] line[i] != '\n' by {
        if i >= head.len() + 2 {
            assert(line[i] == n[i - head.len() - 2]);
        }
    }
    lemma_lines_first_line(line, rest, Seq::empty());
    assert(Seq::<char>::empty() + line =~= line);
    if n.len() > 0 {
        assert(line.last() == n.last());
    }
    assert(strip_cr(line) == line);
    let ls = text_lines(model_key() + seq!['\t', ':', ' '] + n + seq!['\n'] + rest);
    assert(ls[0] == line);
    assert(line.take(10) =~= model_key());
    assert(first_line_starting(ls, model_key()) == Some(line));
    lemma_second_field_after(head, seq![' '] + n);
    let f = seq![' '] + n;
    assert forall|i: int| 0 <= i < f.len() implies #[trigger] f[i] != ':' by {
        if i > 0 {
            assert(f[i] == n[i - 1]);
        }
    }
    lemma_up_to_colon_whole(f);
    assert(f.drop_first() =~= n);
    assert(trim_start(n) == n);
    assert(trim_start(f) == trim_start(n));
    assert(trim_end(n) == n);
}

/// Choosing a device changes nothing in its row but the mark after the
/// device label: the name, speed and layout are the same either way.
pub proof fn lemma_selection_changes_only_the_mark(kind: Seq<char>, name: Seq<char>, speed: Seq<char>)
    ensures
        table_row_text(kind, true, name, speed) == table_row_text(kind, false, name, speed).update(
            kind.len() as int + 3,
            '\u{25c4}',
        ),
{
    let lt = kind + selection_mark(true);
    let lf = kind + selection_mark(false);
    assert(lt =~= lf.update(kind.len() as int + 1, '\u{25c4}'));
    assert(pad_right(lt, 12) =~= pad_right(lf, 12).update(kind.len() as int + 1, '\u{25c4}'));
    let bar = seq!['\u{2502}', ' '];
    let tail = separator() + pad_right(first_bytes(name, 20), 20) + separator() + pad_right(speed, 18)
        + seq![' ', '\u{2502}'];
    assert(table_row_text(kind, true, name, speed) =~= bar + pad_right(lt, 12) + tail);
    assert(table_row_text(kind, false, name, speed) =~= bar + pad_right(lf, 12) + tail);
    assert(bar + pad_right(lt, 12) + tail =~= (bar + pad_right(lf, 12) + tail).update(
        kind.len() as int + 3,
        '\u{25c4}',
    ));
}

/// An ASCII name is cut to its first 20 characters.
pub proof fn lemma_ascii_name_cut_to_20(name: Seq<char>)
    requires
        vstd::utf8::is_ascii_chars(name),
    ensures
        first_bytes(name, 20) == (if name.len() <= 20 { name } else { name.take(20) }),
{
    vstd::utf8::is_ascii_chars_encode_utf8(name);
    if name.len() > 20 {
        let t = name.take(20);
        assert(vstd::utf8::is_ascii_chars(t));
        vstd::utf8::is_ascii_chars_encode_utf8(t);
        assert(encode_utf8(name).take(20) =~= encode_utf8(t));
    }
}

/// With an ASCII name and a label and speed that fit their columns,
/// every row is 60 characters wide and its name column (characters 17 to
/// 36) holds the name's first 20 characters, padded: selected or not.
pub proof fn lemma_ascii_row_layout(kind: Seq<char>, selected: bool, name: Seq<char>, speed: Seq<char>)
    requires
        vstd::utf8::is_ascii_chars(name),
        kind.len() + 2 <= 12,
        speed.len() <= 18,
    ensures
        table_row_text(kind, selected, name, speed).len() == 60,
        table_row_text(kind, selected, name, speed).subrange(17, 37) == pad_right(
            if name.len() <= 20 { name } else { name.take(20) },
            20,
        ),
{
    lemma_ascii_name_cut_to_20(name);
    let label = pad_right(kind + selection_mark(selected), 12);
    let col = pad_right(first_bytes(name, 20), 20);
    let row = seq!['\u{2502}', ' '] + label + separator() + col + separator() + pad_right(speed, 18)
        + seq![' ', '\u{2502}'];
    assert(label.len() == 12);
    assert(col.len() == 20);
    assert(row.subrange(17, 37) =~= col);
}

} // verus!
