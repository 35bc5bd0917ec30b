use vstd::prelude::*;

verus! {

/// Whether `c` is white space in the Unicode sense (`char::is_whitespace`).
pub open spec fn is_ws(c: char) -> bool {
    ('\u{9}' <= c && c <= '\u{d}') || c == ' ' || c == '\u{85}' || c == '\u{a0}'
        || c == '\u{1680}' || ('\u{2000}' <= c && c <= '\u{200a}') || c == '\u{2028}'
        || c == '\u{2029}' || c == '\u{202f}' || c == '\u{205f}' || c == '\u{3000}'
}

/// The fields completed so far and the field being read, after reading `s`
/// from left to right.
pub open spec fn split_state(s: Seq<char>) -> (Seq<Seq<char>>, Seq<char>)
    decreases s.len(),
{
    if s.len() == 0 {
        (seq![], seq![])
    } else {
        let (done, cur) = split_state(s.drop_last());
        let c = s.last();
        if !is_ws(c) {
            (done, cur.push(c))
        } else if cur.len() > 0 {
            (done.push(cur), seq![])
        } else {
            (done, cur)
        }
    }
}

/// The white-space separated fields of `s`: its maximal runs of characters
/// that are not white space.
pub open spec fn fields(s: Seq<char>) -> Seq<Seq<char>> {
    let (done, cur) = split_state(s);
    if cur.len() > 0 {
        done.push(cur)
    } else {
        done
    }
}

/// The escape that a mount listing writes for a space.
pub open spec fn escaped_space() -> Seq<char> {
    seq!['\\', '0', '4', '0']
}

/// `s` with each escaped space, read from left to right, turned into a space.
pub open spec fn decode_spaces(s: Seq<char>) -> Seq<char>
    decreases s.len(),
{
    if s.len() == 0 {
        s
    } else if s.len() >= 4 && s.take(4) == escaped_space() {
        seq![' '] + decode_spaces(s.skip(4))
    } else {
        seq![s[0]] + decode_spaces(s.skip(1))
    }
}

/// Decoding splits before an escaped space: no escape that begins in `a`
/// reaches into `c`.
proof fn lemma_decode_split(a: Seq<char>, c: Seq<char>)
    requires
        c.len() >= 4,
        c.take(4) == escaped_space(),
    ensures
        decode_spaces(a + c) == decode_spaces(a) + decode_spaces(c),
    decreases a.len(),
{
    let s = a + c;
    if a.len() == 0 {
        assert(s == c);
        assert(decode_spaces(a) + decode_spaces(c) == decode_spaces(c));
    } else if s.take(4) == escaped_space() {
        if a.len() >= 4 {
            assert(a.take(4) == s.take(4));
            assert(s.skip(4) == a.skip(4) + c);
            lemma_decode_split(a.skip(4), c);
        } else {
            assert(s[0] == '\\');
            let n = a.len() as int;
            assert(s.take(4)[n] == c[0]);
            assert(c.take(4)[0] == c[0]);
            assert(false);
        }
    } else {
        if a.len() >= 4 {
            assert(a.take(4) == s.take(4));
        }
        assert(s.skip(1) == a.skip(1) + c);
        assert(s[0] == a[0]);
        lemma_decode_split(a.skip(1), c);
    }
}

/// An escaped space in a field decodes to one space, and the text on each
/// side of it decodes on its own.
pub proof fn lemma_escaped_space_decodes(a: Seq<char>, b: Seq<char>)
    ensures
        decode_spaces(a + escaped_space() + b) == decode_spaces(a) + seq![' '] + decode_spaces(b),
{
    let c = escaped_space() + b;
    assert(c.take(4) == escaped_space());
    assert(a + escaped_space() + b == a + c);
    lemma_decode_split(a, c);
    assert(c.skip(4) == b);
}

/// `n` spaces.
pub open spec fn spaces(n: nat) -> Seq<char> {
    Seq::new(n, |i: int| ' ')
}

/// `s` followed by spaces up to `w` characters.
pub open spec fn pad_right(s: Seq<char>, w: nat) -> Seq<char> {
    if s.len() < w {
        s + spaces((w - s.len()) as nat)
    } else {
        s
    }
}

/// `s` preceded by spaces up to `w` characters.
pub open spec fn pad_left(s: Seq<char>, w: nat) -> Seq<char> {
    if s.len() < w {
        spaces((w - s.len()) as nat) + s
    } else {
        s
    }
}

/// The decimal digit of `d`.
pub open spec fn digit(d: nat) -> char {
    if d < 10 {
        ((d + 48) as u8) as char
    } else {
        '?'
    }
}

/// The decimal notation of `n`, without leading zeros.
pub open spec fn decimal(n: nat) -> Seq<char>
    decreases n,
{
    if n < 10 {
        seq![digit(n)]
    } else {
        decimal(n / 10).push(digit(n % 10))
    }
}

/// Relies on `String::push`: appends one character.
#[verifier::external_body]
pub(crate) fn push_char(s: &mut String, c: char)
    ensures
        final(s)@ == old(s)@.push(c),
{
    s.push(c);
}

/// The characters of `s`, in order.
pub fn chars_of(s: &str) -> (r: Vec<char>)
    ensures
        r@ == s@,
{
    let mut r: Vec<char> = Vec::new();
    for c in it: s.chars()
        invariant
            r@ == it.seq().take(it.index() as int),
    {
        r.push(c);
    }
    r
}

/// Whether `c` is white space in the Unicode sense.
pub fn is_white_space(c: char) -> (r: bool)
    ensures
        r == is_ws(c),
{
    ('\u{9}' <= c && c <= '\u{d}') || c == ' ' || c == '\u{85}' || c == '\u{a0}'
        || c == '\u{1680}' || ('\u{2000}' <= c && c <= '\u{200a}') || c == '\u{2028}'
        || c == '\u{2029}' || c == '\u{202f}' || c == '\u{205f}' || c == '\u{3000}'
}

/// Views of a vector of strings.
pub open spec fn views(v: Seq<String>) -> Seq<Seq<char>> {
    v.map_values(|x: String| x@)
}

/// The white-space separated fields of `line`.
pub fn split_fields(line: &str) -> (r: Vec<String>)
    ensures
        views(r@) == fields(line@),
{
    let v = chars_of(line);
    let mut done: Vec<String> = Vec::new();
    let mut cur = String::new();
    let mut i: usize = 0;
    while i < v.len()
        invariant
            i <= v.len(),
            v@ == line@,
            (views(done@), cur@) == split_state(v@.take(i as int)),
        decreases v.len() - i,
    {
        let c = v[i];
        assert(v@.take(i + 1).drop_last() == v@.take(i as int));
        if !is_white_space(c) {
            push_char(&mut cur, c);
        } else if !cur.as_str().is_empty() {
            let w = cur;
            done.push(w);
            cur = String::new();
        }
        assert(views(done@) == split_state(v@.take(i + 1)).0);
        i = i + 1;
    }
    assert(v@.take(i as int) == v@);
    if !cur.as_str().is_empty() {
        done.push(cur);
    }
    done
}

/// `s` with each escaped space turned into a space; other escapes stay as
/// they are.
pub fn decode_escaped_spaces(s: &str) -> (r: String)
    ensures
        r@ == decode_spaces(s@),
{
    let v = chars_of(s);
    let mut r = String::new();
    let mut i: usize = 0;
    assert(v@.skip(0) == v@);
    while i < v.len()
        invariant
            i <= v.len(),
            v@ == s@,
            r@ + decode_spaces(v@.skip(i as int)) == decode_spaces(v@),
        decreases v.len() - i,
    {
        let ghost rest = v@.skip(i as int);
        if v.len() - i >= 4 && v[i] == '\\' && v[i + 1] == '0' && v[i + 2] == '4' && v[i + 3] == '0' {
            assert(rest.take(4) == escaped_space());
            assert(rest.skip(4) == v@.skip(i + 4));
            push_char(&mut r, ' ');
            i = i + 4;
        } else {
            assert(rest.len() >= 4 ==> rest.take(4) != escaped_space()) by {
                if rest.len() >= 4 && rest.take(4) == escaped_space() {
                    assert(rest.take(4)[0] == v@[i as int]);
                    assert(rest.take(4)[1] == v@[i + 1]);
                    assert(rest.take(4)[2] == v@[i + 2]);
                    assert(rest.take(4)[3] == v@[i + 3]);
                }
            }
            assert(rest.skip(1) == v@.skip(i + 1));
            push_char(&mut r, v[i]);
            i = i + 1;
        }
    }
    r
}

/// Appends `n` spaces to `out`.
pub fn push_spaces(out: &mut String, n: usize)
    ensures
        final(out)@ == old(out)@ + spaces(n as nat),
{
    let mut i: usize = 0;
    while i < n
        invariant
            i <= n,
            out@ == old(out)@ + spaces(i as nat),
        decreases n - i,
    {
        push_char(out, ' ');
        assert(spaces((i + 1) as nat) == spaces(i as nat).push(' '));
        i = i + 1;
    }
}

/// Appends `s` to `out`, followed by spaces up to `w` characters.
pub fn push_padded_right(out: &mut String, s: &str, w: usize)
    ensures
        final(out)@ == old(out)@ + pad_right(s@, w as nat),
{
    let n = chars_of(s).len();
    out.append(s);
    if n < w {
        push_spaces(out, w - n);
    }
    assert(final(out)@ == old(out)@ + pad_right(s@, w as nat));
}

/// Appends `s` to `out`, preceded by spaces up to `w` characters.
pub fn push_padded_left(out: &mut String, s: &str, w: usize)
    ensures
        final(out)@ == old(out)@ + pad_left(s@, w as nat),
{
    let n = chars_of(s).len();
    if n < w {
        push_spaces(out, w - n);
    }
    out.append(s);
    assert(final(out)@ == old(out)@ + pad_left(s@, w as nat));
}

/// The character of the decimal digit `d`.
pub fn digit_char(d: u128) -> (r: char)
    requires
        d < 10,
    ensures
        r == digit(d as nat),
{
    ((d + 48) as u8) as char
}

/// Appends the decimal notation of `n` to `out`.
pub fn push_decimal(out: &mut String, n: u128)
    ensures
        final(out)@ == old(out)@ + decimal(n as nat),
    decreases n,
{
    if n < 10 {
        push_char(out, digit_char(n));
    } else {
        push_decimal(out, n / 10);
        push_char(out, digit_char(n % 10));
    }
}

} // verus!
