//! Text building blocks: decimal numbers, comparison, white space and trimming.
//!
//! A text is modelled by the sequence of its characters.

use vstd::prelude::*;

verus! {

/// `String::push` appends one character to the end of the text.
pub assume_specification[ String::push ](s: &mut String, c: char)
    ensures
        final(s)@ == old(s)@.push(c),
;

/// The lower-case form of a text as `str::to_lowercase` gives it.
pub uninterp spec fn lowercase(s: Seq<char>) -> Seq<char>;

/// `str::to_lowercase`: the result depends on the characters of the text alone,
/// by the Unicode tables of the standard library, and on no locale.
#[verifier::external_body]
pub(crate) fn to_lowercase(s: &str) -> (r: String)
    ensures
        r@ == lowercase(s@),
{
    s.to_lowercase()
}

/// The decimal digits of `n`, without leading zeros.
pub open spec fn decimal(n: nat) -> Seq<char>
    decreases n,
{
    if n < 10 {
        seq![digit(n)]
    } else {
        decimal(n / 10).push(digit(n % 10))
    }
}

/// The character that stands for the digit `d`.
pub open spec fn digit(d: nat) -> char {
    (('0' as int) + d) as char
}

/// `n` in at least two digits.
pub open spec fn two_digits(n: nat) -> Seq<char> {
    if n < 10 {
        seq!['0'] + decimal(n)
    } else {
        decimal(n)
    }
}

fn digit_char(d: u64) -> (c: char)
    requires
        d < 10,
    ensures
        c == digit(d as nat),
{
    match d {
        0 => '0',
        1 => '1',
        2 => '2',
        3 => '3',
        4 => '4',
        5 => '5',
        6 => '6',
        7 => '7',
        8 => '8',
        _ => '9',
    }
}

/// Appends the decimal digits of `n` to `out`.
pub fn push_decimal(out: &mut String, n: u64)
    ensures
        final(out)@ == old(out)@ + decimal(n as nat),
    decreases n,
{
    if n >= 10 {
        push_decimal(out, n / 10);
    }
    out.push(digit_char(n % 10));
    proof {
        reveal_with_fuel(decimal, 2);
    }
    assert(out@ =~= old(out)@ + decimal(n as nat));
}

/// The decimal digits of `n`.
pub fn decimal_text(n: u64) -> (r: String)
    ensures
        r@ == decimal(n as nat),
{
    let mut out = String::new();
    push_decimal(&mut out, n);
    assert(out@ =~= decimal(n as nat));
    out
}

/// A signed number in decimal.
pub open spec fn signed_decimal(n: int) -> Seq<char> {
    if n < 0 {
        seq!['-'] + decimal((-n) as nat)
    } else {
        decimal(n as nat)
    }
}

/// Appends `n` in decimal to `out`.
pub fn push_signed_decimal(out: &mut String, n: i32)
    ensures
        final(out)@ == old(out)@ + signed_decimal(n as int),
{
    let wide: i64 = n as i64;
    if wide < 0 {
        out.push('-');
        push_decimal(out, (-wide) as u64);
        assert(out@ =~= old(out)@ + signed_decimal(n as int));
    } else {
        push_decimal(out, wide as u64);
    }
}

/// The characters of `s`, in order.
pub fn chars_of(s: &str) -> (v: Vec<char>)
    ensures
        v@ == s@,
{
    let mut v: Vec<char> = Vec::new();
    for c in it: s.chars()
        invariant
            it.seq() == s@,
            v@ == s@.take(it.index() as int),
    {
        v.push(c);
        assert(v@ =~= s@.take(it.index() as int + 1));
    }
    assert(s@.take(s@.len() as int) =~= s@);
    v
}

/// The text made of the characters from `from` up to `to`.
pub fn text_of(chars: &Vec<char>, from: usize, to: usize) -> (r: String)
    requires
        from <= to <= chars@.len(),
    ensures
        r@ == chars@.subrange(from as int, to as int),
{
    let mut out = String::new();
    let mut i: usize = from;
    while i < to
        invariant
            from <= i <= to <= chars@.len(),
            out@ == chars@.subrange(from as int, i as int),
        decreases to - i,
    {
        out.push(chars[i]);
        i = i + 1;
        assert(out@ =~= chars@.subrange(from as int, i as int));
    }
    out
}

/// Whether the two texts have the same characters.
pub fn same_text(a: &str, b: &str) -> (r: bool)
    ensures
        r == (a@ == b@),
{
    a.to_owned() == b.to_owned()
}

/// Whether `c` occurs in `s`.
pub fn contains_char(s: &str, c: char) -> (r: bool)
    ensures
        r == s@.contains(c),
{
    let chars = chars_of(s);
    let mut i: usize = 0;
    while i < chars.len()
        invariant
            i <= chars@.len(),
            chars@ == s@,
            forall|j: int| 0 <= j < i ==> chars@[j] != c,
        decreases chars@.len() - i,
    {
        if chars[i] == c {
            assert(s@[i as int] == c);
            return true;
        }
        i = i + 1;
    }
    false
}

/// `a` comes before `b` in the order of code points.
pub open spec fn text_before(a: Seq<char>, b: Seq<char>) -> bool
    decreases a.len(),
{
    if b.len() == 0 {
        false
    } else if a.len() == 0 {
        true
    } else if a[0] == b[0] {
        text_before(a.drop_first(), b.drop_first())
    } else {
        a[0] < b[0]
    }
}

/// Whether `a` comes before `b` in the order of code points.
pub fn is_text_before(a: &str, b: &str) -> (r: bool)
    ensures
        r == text_before(a@, b@),
{
    let x = chars_of(a);
    let y = chars_of(b);
    let mut i: usize = 0;
    assert(x@.skip(0) =~= x@);
    assert(y@.skip(0) =~= y@);
    while i < x.len() && i < y.len()
        invariant
            i <= x@.len(),
            i <= y@.len(),
            x@ == a@,
            y@ == b@,
            text_before(a@, b@) == text_before(x@.skip(i as int), y@.skip(i as int)),
        decreases x@.len() - i,
    {
        let c = x[i];
        let d = y[i];
        if c != d {
            return c < d;
        }
        assert(x@.skip(i as int).drop_first() =~= x@.skip(i + 1));
        assert(y@.skip(i as int).drop_first() =~= y@.skip(i + 1));
        i = i + 1;
    }
    i < y.len()
}

/// No text comes before itself.
pub proof fn text_before_irreflexive(a: Seq<char>)
    ensures
        !text_before(a, a),
    decreases a.len(),
{
    if a.len() > 0 {
        text_before_irreflexive(a.drop_first());
    }
}

/// Of two different texts one comes before the other.
pub proof fn text_before_total(a: Seq<char>, b: Seq<char>)
    requires
        a != b,
    ensures
        text_before(a, b) || text_before(b, a),
    decreases a.len(),
{
    if a.len() > 0 && b.len() > 0 && a[0] == b[0] {
        assert(a =~= seq![a[0]] + a.drop_first());
        assert(b =~= seq![b[0]] + b.drop_first());
        text_before_total(a.drop_first(), b.drop_first());
    } else if a.len() == 0 && b.len() == 0 {
        assert(a =~= b);
    }
}

/// What comes before a text comes before all that follow it.
pub proof fn text_before_transitive(a: Seq<char>, b: Seq<char>, c: Seq<char>)
    requires
        text_before(a, b),
        text_before(b, c),
    ensures
        text_before(a, c),
    decreases a.len(),
{
    if a.len() > 0 && a[0] == b[0] && b[0] == c[0] {
        text_before_transitive(a.drop_first(), b.drop_first(), c.drop_first());
    }
}

/// `c` is white space, by the Unicode property of that name.
pub open spec fn is_space(c: char) -> bool {
    ||| '\u{9}' <= c <= '\u{d}'
    ||| c == '\u{20}'
    ||| c == '\u{85}'
    ||| c == '\u{a0}'
    ||| c == '\u{1680}'
    ||| '\u{2000}' <= c <= '\u{200a}'
    ||| c == '\u{2028}'
    ||| c == '\u{2029}'
    ||| c == '\u{202f}'
    ||| c == '\u{205f}'
    ||| c == '\u{3000}'
}

/// Whether `c` is white space.
pub fn is_whitespace(c: char) -> (r: bool)
    ensures
        r == is_space(c),
{
    ('\u{9}' <= c && c <= '\u{d}') || c == '\u{20}' || c == '\u{85}' || c == '\u{a0}' || c
        == '\u{1680}' || ('\u{2000}' <= c && c <= '\u{200a}') || c == '\u{2028}' || c
        == '\u{2029}' || c == '\u{202f}' || c == '\u{205f}' || c == '\u{3000}'
}

/// `c` is a control character.
pub open spec fn is_control_char(c: char) -> bool {
    c <= '\u{1f}' || '\u{7f}' <= c <= '\u{9f}'
}

/// Whether `c` is a control character.
pub fn is_control(c: char) -> (r: bool)
    ensures
        r == is_control_char(c),
{
    c <= '\u{1f}' || ('\u{7f}' <= c && c <= '\u{9f}')
}

/// There is nothing but white space in `s`.
pub open spec fn is_blank_text(s: Seq<char>) -> bool {
    forall|i: int| 0 <= i < s.len() ==> is_space(#[trigger] s[i])
}

/// `s` without white space at its start.
pub open spec fn trim_left(s: Seq<char>) -> Seq<char>
    decreases s.len(),
{
    if s.len() > 0 && is_space(s[0]) {
        trim_left(s.drop_first())
    } else {
        s
    }
}

/// `s` without white space at its end.
pub open spec fn trim_right(s: Seq<char>) -> Seq<char>
    decreases s.len(),
{
    if s.len() > 0 && is_space(s.last()) {
        trim_right(s.drop_last())
    } else {
        s
    }
}

/// `s` without white space at its start and end.
pub open spec fn trimmed(s: Seq<char>) -> Seq<char> {
    trim_right(trim_left(s))
}

/// `s` without white space at its start and end.
pub fn trim(s: &str) -> (r: String)
    ensures
        r@ == trimmed(s@),
{
    let chars = chars_of(s);
    let mut from: usize = 0;
    assert(chars@.skip(0) =~= chars@);
    while from < chars.len() && is_whitespace(chars[from])
        invariant
            from <= chars@.len(),
            trim_left(chars@) == trim_left(chars@.skip(from as int)),
        decreases chars@.len() - from,
    {
        assert(chars@.skip(from as int).drop_first() =~= chars@.skip(from + 1));
        from = from + 1;
    }
    let ghost left = chars@.skip(from as int);
    assert(trim_left(chars@) == left);
    let mut to: usize = chars.len();
    assert(chars@.subrange(from as int, to as int) =~= left);
    while to > from && is_whitespace(chars[to - 1])
        invariant
            from <= to <= chars@.len(),
            trim_right(left) == trim_right(chars@.subrange(from as int, to as int)),
        decreases to,
    {
        assert(chars@.subrange(from as int, to as int).drop_last() =~= chars@.subrange(
            from as int,
            to - 1,
        ));
        to = to - 1;
    }
    text_of(&chars, from, to)
}

/// How many characters come before the first line feed, or at all.
pub open spec fn line_len(s: Seq<char>) -> nat
    decreases s.len(),
{
    if s.len() == 0 || s[0] == '\n' {
        0
    } else {
        1 + line_len(s.drop_first())
    }
}

/// `line` without one carriage return at its end.
pub open spec fn without_return(line: Seq<char>) -> Seq<char> {
    if line.len() > 0 && line.last() == '\r' {
        line.drop_last()
    } else {
        line
    }
}

proof fn line_len_is_bounded(s: Seq<char>)
    ensures
        line_len(s) <= s.len(),
        line_len(s) < s.len() ==> s[line_len(s) as int] == '\n',
    decreases s.len(),
{
    if s.len() > 0 && s[0] != '\n' {
        line_len_is_bounded(s.drop_first());
    }
}

/// The lines of `s` without their line endings. A line ends in a line feed,
/// with or without a carriage return before it; the last one may end in
/// neither.
pub open spec fn lines_of(s: Seq<char>) -> Seq<Seq<char>>
    decreases s.len(),
{
    if s.len() == 0 {
        Seq::empty()
    } else if line_len(s) >= s.len() {
        seq![s]
    } else {
        seq![without_return(s.take(line_len(s) as int))] + lines_of(
            s.skip(line_len(s) as int + 1),
        )
    }
}

/// The lines of `s` without their line endings.
pub fn lines(s: &str) -> (r: Vec<String>)
    ensures
        r@.map_values(|l: String| l@) == lines_of(s@),
{
    let chars = chars_of(s);
    let ghost all = chars@;
    let mut r: Vec<String> = Vec::new();
    let mut start: usize = 0;
    assert(all.skip(0) =~= all);
    assert(r@.map_values(|l: String| l@) + lines_of(all) =~= lines_of(all));
    while start < chars.len()
        invariant
            start <= chars@.len(),
            all == chars@,
            all == s@,
            r@.map_values(|l: String| l@) + lines_of(all.skip(start as int)) == lines_of(all),
        decreases chars@.len() - start,
    {
        let ghost rest = all.skip(start as int);
        let ghost before = r@.map_values(|l: String| l@);
        let mut i: usize = start;
        while i < chars.len() && chars[i] != '\n'
            invariant
                start <= i <= chars@.len(),
                all == chars@,
                rest == all.skip(start as int),
                line_len(rest) == (i - start) + line_len(all.skip(i as int)),
            decreases chars@.len() - i,
        {
            assert(all.skip(i as int).drop_first() =~= all.skip(i + 1));
            i = i + 1;
        }
        assert(line_len(rest) == i - start);
        assert(rest.take(line_len(rest) as int) =~= all.subrange(start as int, i as int));
        if i == chars.len() {
            let line = text_of(&chars, start, i);
            assert(all.subrange(start as int, i as int) =~= rest);
            r.push(line);
            assert(r@.map_values(|l: String| l@) =~= before + seq![line@]);
            assert(all.skip(i as int) =~= Seq::empty());
            assert(r@.map_values(|l: String| l@) + lines_of(all.skip(i as int)) =~= before
                + lines_of(rest));
            start = i;
        } else {
            let to: usize = if i > start && chars[i - 1] == '\r' {
                i - 1
            } else {
                i
            };
            let line = text_of(&chars, start, to);
            assert(line@ =~= without_return(all.subrange(start as int, i as int)));
            r.push(line);
            assert(r@.map_values(|l: String| l@) =~= before + seq![line@]);
            assert(rest.skip(line_len(rest) as int + 1) =~= all.skip(i + 1));
            assert(r@.map_values(|l: String| l@) + lines_of(all.skip(i + 1)) =~= before
                + lines_of(rest));
            start = i + 1;
        }
    }
    assert(all.skip(start as int) =~= Seq::empty());
    assert(r@.map_values(|l: String| l@) + lines_of(all.skip(start as int)) =~= r@.map_values(
        |l: String| l@,
    ));
    r
}

/// Whether there is nothing but white space in `s`.
pub fn is_blank(s: &str) -> (r: bool)
    ensures
        r == is_blank_text(s@),
{
    let chars = chars_of(s);
    let mut i: usize = 0;
    while i < chars.len()
        invariant
            i <= chars@.len(),
            chars@ == s@,
            forall|j: int| 0 <= j < i ==> is_space(#[trigger] chars@[j]),
        decreases chars@.len() - i,
    {
        if !is_whitespace(chars[i]) {
            assert(!is_space(s@[i as int]));
            return false;
        }
        i = i + 1;
    }
    true
}

/// `s` without the characters `c` at its end.
pub open spec fn trim_end_of(s: Seq<char>, c: char) -> Seq<char>
    decreases s.len(),
{
    if s.len() > 0 && s.last() == c {
        trim_end_of(s.drop_last(), c)
    } else {
        s
    }
}

/// `s` without the characters `c` at its end.
pub fn trim_end(s: &str, c: char) -> (r: String)
    ensures
        r@ == trim_end_of(s@, c),
{
    let chars = chars_of(s);
    let mut n: usize = chars.len();
    assert(chars@.take(n as int) =~= chars@);
    while n > 0 && chars[n - 1] == c
        invariant
            n <= chars@.len(),
            chars@ == s@,
            trim_end_of(s@, c) == trim_end_of(chars@.take(n as int), c),
        decreases n,
    {
        assert(chars@.take(n as int).drop_last() =~= chars@.take(n - 1));
        n = n - 1;
    }
    assert(chars@.subrange(0, n as int) =~= chars@.take(n as int));
    text_of(&chars, 0, n)
}

/// `s` without the characters `c` at its start.
pub open spec fn trim_start_of(s: Seq<char>, c: char) -> Seq<char>
    decreases s.len(),
{
    if s.len() > 0 && s[0] == c {
        trim_start_of(s.drop_first(), c)
    } else {
        s
    }
}

/// `s` without the characters `c` at its start.
pub fn trim_start(s: &str, c: char) -> (r: String)
    ensures
        r@ == trim_start_of(s@, c),
{
    let chars = chars_of(s);
    let mut i: usize = 0;
    assert(chars@.skip(0) =~= chars@);
    while i < chars.len() && chars[i] == c
        invariant
            i <= chars@.len(),
            chars@ == s@,
            trim_start_of(s@, c) == trim_start_of(chars@.skip(i as int), c),
        decreases chars@.len() - i,
    {
        assert(chars@.skip(i as int).drop_first() =~= chars@.skip(i + 1));
        i = i + 1;
    }
    assert(chars@.subrange(i as int, chars@.len() as int) =~= chars@.skip(i as int));
    text_of(&chars, i, chars.len())
}

/// `s` with every `from` turned into `to`.
pub open spec fn replaced(s: Seq<char>, from: char, to: char) -> Seq<char> {
    s.map_values(
        |c: char|
            if c == from {
                to
            } else {
                c
            },
    )
}

/// `s` with every `from` turned into `to`.
pub fn replace_char(s: &str, from: char, to: char) -> (r: String)
    ensures
        r@ == replaced(s@, from, to),
{
    let chars = chars_of(s);
    let mut out = String::new();
    let mut i: usize = 0;
    while i < chars.len()
        invariant
            i <= chars@.len(),
            chars@ == s@,
            out@ == replaced(s@.take(i as int), from, to),
        decreases chars@.len() - i,
    {
        if chars[i] == from {
            out.push(to);
        } else {
            out.push(chars[i]);
        }
        i = i + 1;
        assert(out@ =~= replaced(s@.take(i as int), from, to));
    }
    assert(s@.take(i as int) =~= s@);
    out
}

/// Whether `s` begins with `prefix`.
pub fn has_prefix(s: &str, prefix: &str) -> (r: bool)
    ensures
        r == prefix@.is_prefix_of(s@),
{
    let a = chars_of(s);
    let b = chars_of(prefix);
    if b.len() > a.len() {
        return false;
    }
    let mut i: usize = 0;
    while i < b.len()
        invariant
            i <= b@.len() <= a@.len(),
            a@ == s@,
            b@ == prefix@,
            forall|j: int| 0 <= j < i ==> a@[j] == b@[j],
        decreases b@.len() - i,
    {
        if a[i] != b[i] {
            assert(a@.subrange(0, b@.len() as int)[i as int] != b@[i as int]);
            return false;
        }
        i = i + 1;
    }
    assert(a@.subrange(0, b@.len() as int) =~= b@);
    true
}

/// The values of a list of texts.
pub open spec fn texts_of(list: Seq<String>) -> Seq<Seq<char>> {
    list.map_values(|s: String| s@)
}

/// A copy of a list of texts.
pub fn copy_texts(list: &[String]) -> (r: Vec<String>)
    ensures
        texts_of(r@) == texts_of(list@),
{
    let mut r: Vec<String> = Vec::new();
    let mut i: usize = 0;
    while i < list.len()
        invariant
            i <= list@.len(),
            r@.len() == i,
            forall|j: int| 0 <= j < i ==> (#[trigger] r@[j])@ == list@[j]@,
        decreases list@.len() - i,
    {
        r.push(list[i].clone());
        i = i + 1;
    }
    assert(texts_of(r@) =~= texts_of(list@));
    r
}

/// Whether a text is in a list.
pub fn is_listed(list: &[String], text: &str) -> (r: bool)
    ensures
        r == texts_of(list@).contains(text@),
{
    let mut i: usize = 0;
    while i < list.len()
        invariant
            i <= list@.len(),
            forall|j: int| 0 <= j < i ==> #[trigger] texts_of(list@)[j] != text@,
        decreases list@.len() - i,
    {
        if same_text(list[i].as_str(), text) {
            assert(texts_of(list@)[i as int] == text@);
            return true;
        }
        i = i + 1;
    }
    false
}

/// `n` spaces.
pub open spec fn spaces(n: nat) -> Seq<char> {
    Seq::new(n, |i: int| ' ')
}

/// The spaces that `s` lacks to be `width` characters long.
pub open spec fn filler(s: Seq<char>, width: nat) -> Seq<char> {
    if s.len() < width {
        spaces((width - s.len()) as nat)
    } else {
        Seq::empty()
    }
}

/// `s` with spaces after it, `width` characters long at least.
pub open spec fn padded_right(s: Seq<char>, width: nat) -> Seq<char> {
    s + filler(s, width)
}

/// `s` with spaces before it, `width` characters long at least.
pub open spec fn padded_left(s: Seq<char>, width: nat) -> Seq<char> {
    filler(s, width) + s
}

fn filler_for(s: &str, width: usize) -> (r: String)
    ensures
        r@ == filler(s@, width as nat),
{
    let len: usize = chars_of(s).len();
    let missing: usize = if len < width {
        width - len
    } else {
        0
    };
    let mut r = String::new();
    let mut i: usize = 0;
    assert(r@ =~= spaces(0));
    while i < missing
        invariant
            i <= missing,
            r@ == spaces(i as nat),
        decreases missing - i,
    {
        r.push(' ');
        i = i + 1;
        assert(r@ =~= spaces(i as nat));
    }
    assert(r@ =~= filler(s@, width as nat));
    r
}

/// `s` with spaces after it, `width` characters long at least.
pub fn pad_right(s: &str, width: usize) -> (r: String)
    ensures
        r@ == padded_right(s@, width as nat),
{
    let mut r = s.to_owned();
    r.append(filler_for(s, width).as_str());
    r
}

/// `s` with spaces before it, `width` characters long at least.
pub fn pad_left(s: &str, width: usize) -> (r: String)
    ensures
        r@ == padded_left(s@, width as nat),
{
    let mut r = filler_for(s, width);
    r.append(s);
    r
}

// ---- What holds of texts ----

/// Texts are ordered by the first character in which they differ; a text comes
/// before all that it begins.
pub proof fn texts_are_ordered_by_characters(a: Seq<char>, b: Seq<char>, n: int)
    requires
        0 <= n <= a.len(),
        n <= b.len(),
        forall|i: int| 0 <= i < n ==> #[trigger] a[i] == b[i],
    ensures
        n < a.len() && n < b.len() && a[n] != b[n] ==> text_before(a, b) == (a[n] < b[n]),
        n == a.len() ==> text_before(a, b) == (a.len() < b.len()),
        n == b.len() ==> !text_before(a, b),
    decreases n,
{
    if n > 0 {
        assert(a[0] == b[0]);
        let x = a.drop_first();
        let y = b.drop_first();
        assert forall|i: int| 0 <= i < n - 1 implies #[trigger] x[i] == y[i] by {
            assert(x[i] == a[i + 1] && y[i] == b[i + 1]);
        }
        texts_are_ordered_by_characters(x, y, n - 1);
    }
}

/// The value of a text of digits.
pub open spec fn value_of(s: Seq<char>) -> int
    decreases s.len(),
{
    if s.len() == 0 {
        0
    } else {
        10 * value_of(s.drop_last()) + (s.last() as int - 48)
    }
}

/// The digits of a number are those of which it is made: the text holds digits
/// alone, has its value, and starts with no zero but for the number zero.
pub proof fn digits_have_the_value(n: nat)
    ensures
        decimal(n).len() >= 1,
        forall|i: int| 0 <= i < decimal(n).len() ==> '0' <= #[trigger] decimal(n)[i] <= '9',
        value_of(decimal(n)) == n,
        n > 0 ==> decimal(n)[0] != '0',
    decreases n,
{
    reveal_with_fuel(value_of, 2);
    if n < 10 {
        assert(decimal(n).drop_last() =~= Seq::empty());
    } else {
        digits_have_the_value(n / 10);
        assert(decimal(n).drop_last() =~= decimal(n / 10));
        assert(decimal(n)[0] == decimal(n / 10)[0]);
    }
}

/// A number with a sign is its digits, after a minus sign where it is negative.
pub proof fn signs_stand_before_digits(n: int)
    ensures
        n >= 0 ==> value_of(signed_decimal(n)) == n,
        n < 0 ==> signed_decimal(n)[0] == '-' && value_of(signed_decimal(n).skip(1)) == -n,
{
    digits_have_the_value(if n < 0 {
        (-n) as nat
    } else {
        n as nat
    });
    if n < 0 {
        assert(signed_decimal(n).skip(1) =~= decimal((-n) as nat));
    }
}

/// Two digits at least are written, the first one a zero where it has to be.
pub proof fn two_digits_have_the_value(n: nat)
    ensures
        two_digits(n).len() >= 2,
        value_of(two_digits(n)) == n,
        n < 100 ==> two_digits(n).len() == 2,
{
    digits_have_the_value(n);
    reveal_with_fuel(value_of, 3);
    reveal_with_fuel(decimal, 3);
    if n < 10 {
        assert(two_digits(n).drop_last() =~= seq!['0']);
        assert(two_digits(n).drop_last().drop_last() =~= Seq::empty());
    }
}

/// Trimming takes all the white space at both ends and nothing else.
pub proof fn trimming_takes_white_space_at_the_ends(s: Seq<char>) -> (r: (int, int))
    ensures
        0 <= r.0 <= r.1 <= s.len(),
        trimmed(s) == s.subrange(r.0, r.1),
        forall|i: int| 0 <= i < r.0 || r.1 <= i < s.len() ==> is_space(#[trigger] s[i]),
        r.0 < r.1 ==> !is_space(s[r.0]) && !is_space(s[r.1 - 1]),
{
    let a = left_end(s);
    let rest = s.skip(a);
    let b = right_end(rest);
    assert(rest.take(b) =~= s.subrange(a, a + b));
    assert forall|i: int| 0 <= i < a || a + b <= i < s.len() implies is_space(
        #[trigger] s[i],
    ) by {
        if i >= a + b {
            assert(rest[i - a] == s[i]);
        }
    }
    if b > 0 {
        assert(rest[0] == s[a]);
        assert(rest[b - 1] == s[a + b - 1]);
    }
    (a, a + b)
}

proof fn left_end(s: Seq<char>) -> (a: int)
    ensures
        0 <= a <= s.len(),
        trim_left(s) == s.skip(a),
        forall|i: int| 0 <= i < a ==> is_space(#[trigger] s[i]),
        a < s.len() ==> !is_space(s[a]),
    decreases s.len(),
{
    if s.len() > 0 && is_space(s[0]) {
        let rest = s.drop_first();
        let a = left_end(rest);
        assert(rest.skip(a) =~= s.skip(a + 1));
        assert forall|i: int| 0 <= i < a + 1 implies is_space(#[trigger] s[i]) by {
            if i > 0 {
                assert(rest[i - 1] == s[i]);
            }
        }
        if a < rest.len() {
            assert(rest[a] == s[a + 1]);
        }
        a + 1
    } else {
        assert(s.skip(0) =~= s);
        0
    }
}

proof fn right_end(s: Seq<char>) -> (b: int)
    ensures
        0 <= b <= s.len(),
        trim_right(s) == s.take(b),
        forall|i: int| b <= i < s.len() ==> is_space(#[trigger] s[i]),
        b > 0 ==> !is_space(s[b - 1]),
    decreases s.len(),
{
    if s.len() > 0 && is_space(s.last()) {
        let front = s.drop_last();
        let b = right_end(front);
        assert(front.take(b) =~= s.take(b));
        assert forall|i: int| b <= i < s.len() implies is_space(#[trigger] s[i]) by {
            if i < front.len() {
                assert(front[i] == s[i]);
            }
        }
        b
    } else {
        assert(s.take(s.len() as int) =~= s);
        s.len() as int
    }
}

/// What is trimmed at the end are all the characters `c` there and no other.
pub proof fn trimming_the_end_takes_one_character(s: Seq<char>, c: char) -> (b: int)
    ensures
        0 <= b <= s.len(),
        trim_end_of(s, c) == s.take(b),
        forall|i: int| b <= i < s.len() ==> #[trigger] s[i] == c,
        b > 0 ==> s[b - 1] != c,
    decreases s.len(),
{
    if s.len() > 0 && s.last() == c {
        let front = s.drop_last();
        let b = trimming_the_end_takes_one_character(front, c);
        assert(front.take(b) =~= s.take(b));
        assert forall|i: int| b <= i < s.len() implies #[trigger] s[i] == c by {
            if i < front.len() {
                assert(front[i] == s[i]);
            }
        }
        b
    } else {
        assert(s.take(s.len() as int) =~= s);
        s.len() as int
    }
}

/// A text that is padded keeps its characters, is as wide as wanted where it is
/// not wider, and has spaces for the rest.
pub proof fn padding_adds_spaces(s: Seq<char>, width: nat)
    ensures
        padded_right(s, width).len() == padded_left(s, width).len(),
        padded_right(s, width).len() == (if s.len() < width {
            width
        } else {
            s.len()
        }),
        padded_right(s, width).take(s.len() as int) == s,
        padded_left(s, width).skip(padded_left(s, width).len() - s.len()) == s,
        forall|i: int|
            s.len() <= i < padded_right(s, width).len() ==> #[trigger] padded_right(s, width)[i]
                == ' ',
        forall|i: int|
            0 <= i < padded_left(s, width).len() - s.len() ==> #[trigger] padded_left(s, width)[i]
                == ' ',
{
    assert(padded_right(s, width).take(s.len() as int) =~= s);
    assert(padded_left(s, width).skip(padded_left(s, width).len() - s.len()) =~= s);
}

/// Each character is replaced where it is the one asked for, and no other.
pub proof fn replacing_replaces_one_character(s: Seq<char>, from: char, to: char, i: int)
    requires
        0 <= i < s.len(),
    ensures
        replaced(s, from, to).len() == s.len(),
        s[i] == from ==> replaced(s, from, to)[i] == to,
        s[i] != from ==> replaced(s, from, to)[i] == s[i],
{
}

/// The first line of a text ends at the first line break, without the carriage
/// return before it, and the other lines are those of what follows.
pub proof fn lines_end_at_line_breaks(s: Seq<char>, n: int)
    requires
        0 <= n <= s.len(),
        forall|i: int| 0 <= i < n ==> #[trigger] s[i] != '\n',
        n < s.len() ==> s[n] == '\n',
    ensures
        s.len() == 0 ==> lines_of(s).len() == 0,
        s.len() > 0 && n == s.len() ==> lines_of(s) == seq![s],
        n < s.len() ==> lines_of(s).len() > 0 && lines_of(s).drop_first() == lines_of(
            s.skip(n + 1),
        ),
        n < s.len() && (n == 0 || s[n - 1] != '\r') ==> lines_of(s)[0] == s.take(n),
        n < s.len() && n > 0 && s[n - 1] == '\r' ==> lines_of(s)[0] == s.take(n - 1),
{
    line_ends(s, n);
    if n < s.len() {
        let rest = lines_of(s.skip(n + 1));
        assert(lines_of(s).drop_first() =~= rest);
        if n > 0 {
            assert(s.take(n).last() == s[n - 1]);
            assert(s.take(n).drop_last() =~= s.take(n - 1));
        }
    }
}

proof fn line_ends(s: Seq<char>, n: int)
    requires
        0 <= n <= s.len(),
        forall|i: int| 0 <= i < n ==> #[trigger] s[i] != '\n',
        n < s.len() ==> s[n] == '\n',
    ensures
        line_len(s) == n,
    decreases n,
{
    if n > 0 {
        assert(s[0] != '\n');
        let rest = s.drop_first();
        assert forall|i: int| 0 <= i < n - 1 implies #[trigger] rest[i] != '\n' by {
            assert(rest[i] == s[i + 1]);
        }
        if n < s.len() {
            assert(rest[n - 1] == s[n]);
        }
        line_ends(rest, n - 1);
    }
}

} // verus!
