//! Text as sequences of characters.

use vstd::prelude::*;

verus! {

/// `String::push` of the standard library appends one character at the end.
pub assume_specification[ String::push ](s: &mut String, ch: char)
    ensures
        final(s)@ == old(s)@.push(ch),
;

/// The decimal digit of a number below ten.
pub open spec fn digit_char(d: nat) -> char {
    if d == 0 {
        '0'
    } else if d == 1 {
        '1'
    } else if d == 2 {
        '2'
    } else if d == 3 {
        '3'
    } else if d == 4 {
        '4'
    } else if d == 5 {
        '5'
    } else if d == 6 {
        '6'
    } else if d == 7 {
        '7'
    } else if d == 8 {
        '8'
    } else {
        '9'
    }
}

/// A number written in decimal, without leading zeros.
pub open spec fn decimal(n: nat) -> Seq<char>
    decreases n,
{
    if n < 10 {
        seq![digit_char(n)]
    } else {
        decimal(n / 10).push(digit_char(n % 10))
    }
}

fn digit_of(d: u64) -> (c: char)
    requires
        d < 10,
    ensures
        c == digit_char(d as nat),
{
    match d {
        0 => '0',
        1 => '1',
        2 => '2',
        3 => '3',
        4 => '4',
        5 => '5',
        6 => '6',
        7 => '7',
        8 => '8',
        _ => '9',
    }
}

/// Appends a number in decimal.
pub fn push_decimal(out: &mut String, n: u64)
    ensures
        final(out)@ == old(out)@ + decimal(n as nat),
    decreases n,
{
    if n < 10 {
        out.push(digit_of(n));
        assert(out@ =~= old(out)@ + decimal(n as nat));
    } else {
        push_decimal(out, n / 10);
        out.push(digit_of(n % 10));
        assert(out@ =~= old(out)@ + decimal(n as nat));
    }
}

/// Appends a piece of text.
pub fn push_text(out: &mut String, piece: &str)
    ensures
        final(out)@ == old(out)@ + piece@,
{
    out.append(piece);
}

/// Appends a number in decimal.
pub fn push_size(out: &mut String, n: usize)
    ensures
        final(out)@ == old(out)@ + decimal(n as nat),
{
    push_decimal(out, n as u64);
}

/// A number in decimal, with zeros in front up to three digits.
pub open spec fn padded3(n: nat) -> Seq<char> {
    if n < 10 {
        "00"@ + decimal(n)
    } else if n < 100 {
        "0"@ + decimal(n)
    } else {
        decimal(n)
    }
}

/// A number in decimal, with zeros in front up to four digits.
pub open spec fn padded4(n: nat) -> Seq<char> {
    if n < 1000 {
        "0"@ + padded3(n)
    } else {
        decimal(n)
    }
}

/// Appends a number in decimal, with zeros in front up to three digits.
pub fn push_padded3(out: &mut String, n: usize)
    ensures
        final(out)@ == old(out)@ + padded3(n as nat),
{
    if n < 10 {
        push_text(out, "00");
    } else if n < 100 {
        push_text(out, "0");
    }
    push_size(out, n);
    assert(out@ =~= old(out)@ + padded3(n as nat));
}

/// Appends a number in decimal, with zeros in front up to four digits.
pub fn push_padded4(out: &mut String, n: usize)
    ensures
        final(out)@ == old(out)@ + padded4(n as nat),
{
    if n < 1000 {
        push_text(out, "0");
        push_padded3(out, n);
        assert(out@ =~= old(out)@ + padded4(n as nat));
    } else {
        push_size(out, n);
    }
}

/// The characters of a text, one by one.
pub fn chars_of(text: &str) -> (chars: Vec<char>)
    ensures
        chars@ == text@,
{
    let mut chars: Vec<char> = Vec::new();
    for c in it: text.chars()
        invariant
            chars@ == it.seq().take(it.index()),
            it.seq() == text@,
    {
        chars.push(c);
        assert(chars@ =~= it.seq().take(it.index() + 1));
    }
    assert(chars@ =~= text@);
    chars
}

/// The text of the characters from `from` up to `to`.
pub fn text_of(chars: &Vec<char>, from: usize, to: usize) -> (text: String)
    requires
        from <= to <= chars@.len(),
    ensures
        text@ == chars@.subrange(from as int, to as int),
{
    let mut text = String::new();
    let mut at: usize = from;
    while at < to
        invariant
            from <= at <= to <= chars@.len(),
            text@ == chars@.subrange(from as int, at as int),
        decreases to - at,
    {
        text.push(chars[at]);
        at = at + 1;
        assert(text@ =~= chars@.subrange(from as int, at as int));
    }
    text
}

/// Whether two texts hold the same characters.
pub fn same_text(left: &str, right: &str) -> (same: bool)
    ensures
        same == (left@ == right@),
{
    let a = left.to_owned();
    let b = right.to_owned();
    a == b
}

/// Whether two strings hold the same characters.
pub fn same_string(left: &String, right: &String) -> (same: bool)
    ensures
        same == (left@ == right@),
{
    *left == *right
}

/// A text that may be missing.
pub open spec fn optional(value: Option<String>) -> Option<Seq<char>> {
    match value {
        Some(inner) => Some(inner@),
        None => None,
    }
}

/// The texts of a list of strings.
pub open spec fn texts(list: Seq<String>) -> Seq<Seq<char>> {
    Seq::new(list.len(), |i: int| list[i]@)
}

/// The pieces of a text between separators. There is one more piece than
/// there are separators.
pub open spec fn split_on(s: Seq<char>, separator: char) -> Seq<Seq<char>>
    decreases s.len(),
{
    if s.len() == 0 {
        seq![Seq::empty()]
    } else {
        let before = split_on(s.drop_last(), separator);
        if s.last() == separator {
            before.push(Seq::empty())
        } else {
            before.drop_last().push(before.last().push(s.last()))
        }
    }
}

pub proof fn lemma_split_is_not_empty(s: Seq<char>, separator: char)
    ensures
        split_on(s, separator).len() > 0,
    decreases s.len(),
{
    if s.len() > 0 {
        lemma_split_is_not_empty(s.drop_last(), separator);
    }
}

/// The pieces of a text between separators.
pub fn split_text(text: &str, separator: char) -> (pieces: Vec<String>)
    ensures
        texts(pieces@) == split_on(text@, separator),
{
    let chars = chars_of(text);
    let mut pieces: Vec<String> = Vec::new();
    let mut piece = String::new();
    let mut k: usize = 0;
    proof {
        assert(chars@.take(0).len() == 0);
        assert(texts(pieces@).push(piece@) =~= split_on(chars@.take(0), separator));
    }
    while k < chars.len()
        invariant
            k <= chars@.len(),
            texts(pieces@).push(piece@) == split_on(chars@.take(k as int), separator),
        decreases chars@.len() - k,
    {
        let ghost before = texts(pieces@).push(piece@);
        let ghost more = chars@.take(k + 1);
        proof {
            assert(more.drop_last() =~= chars@.take(k as int));
            assert(more.last() == chars@[k as int]);
        }
        let c = chars[k];
        if c == separator {
            let ghost earlier = pieces@;
            pieces.push(piece);
            piece = String::new();
            proof {
                assert(texts(pieces@) =~= texts(earlier).push(before.last()));
                assert(texts(pieces@).push(piece@) =~= before.push(Seq::empty()));
            }
        } else {
            piece.push(c);
            proof {
                assert(texts(pieces@).push(piece@) =~= before.drop_last().push(
                    before.last().push(c),
                ));
            }
        }
        k = k + 1;
    }
    assert(chars@.take(k as int) =~= text@);
    let ghost earlier = pieces@;
    pieces.push(piece);
    assert(texts(pieces@) =~= texts(earlier).push(piece@));
    pieces
}

/// Whether a character is white space by the Unicode property of that name.
pub open spec fn white(c: char) -> bool {
    ||| 0x9 <= c as int <= 0xd
    ||| c as int == 0x20
    ||| c as int == 0x85
    ||| c as int == 0xa0
    ||| c as int == 0x1680
    ||| 0x2000 <= c as int <= 0x200a
    ||| c as int == 0x2028
    ||| c as int == 0x2029
    ||| c as int == 0x202f
    ||| c as int == 0x205f
    ||| c as int == 0x3000
}

/// Whether a character is white space.
pub fn is_white(c: char) -> (yes: bool)
    ensures
        yes == white(c),
{
    let n = c as u32;
    (0x9 <= n && n <= 0xd) || n == 0x20 || n == 0x85 || n == 0xa0 || n == 0x1680 || (0x2000 <= n
        && n <= 0x200a) || n == 0x2028 || n == 0x2029 || n == 0x202f || n == 0x205f || n == 0x3000
}

/// A text without the white space that ends it.
pub open spec fn trimmed_end(s: Seq<char>) -> Seq<char>
    decreases s.len(),
{
    if s.len() > 0 && white(s.last()) {
        trimmed_end(s.drop_last())
    } else {
        s
    }
}

/// A text without the white space around it.
pub open spec fn trimmed(s: Seq<char>) -> Seq<char>
    decreases s.len(),
{
    if s.len() > 0 && white(s[0]) {
        trimmed(s.skip(1))
    } else {
        trimmed_end(s)
    }
}

/// A text without the white space around it.
pub fn trim(text: &str) -> (out: String)
    ensures
        out@ == trimmed(text@),
{
    let chars = chars_of(text);
    let mut from: usize = 0;
    assert(chars@.skip(0) =~= text@);
    while from < chars.len() && is_white(chars[from])
        invariant
            from <= chars@.len(),
            trimmed(chars@.skip(from as int)) == trimmed(text@),
        decreases chars@.len() - from,
    {
        assert(chars@.skip(from as int).skip(1) =~= chars@.skip(from + 1));
        from = from + 1;
    }
    let mut to: usize = chars.len();
    assert(chars@.subrange(from as int, to as int) =~= chars@.skip(from as int));
    while to > from && is_white(chars[to - 1])
        invariant
            from <= to <= chars@.len(),
            trimmed_end(chars@.subrange(from as int, to as int)) == trimmed_end(
                chars@.skip(from as int),
            ),
        decreases to - from,
    {
        assert(chars@.subrange(from as int, to as int).drop_last() =~= chars@.subrange(
            from as int,
            to - 1,
        ));
        to = to - 1;
    }
    text_of(&chars, from, to)
}

/// A text with each `from` replaced by `to`.
pub open spec fn replaced(s: Seq<char>, from: char, to: char) -> Seq<char> {
    Seq::new(
        s.len(),
        |i: int|
            if s[i] == from {
                to
            } else {
                s[i]
            },
    )
}

/// A text with each `from` replaced by `to`.
pub fn replace_char(text: &str, from: char, to: char) -> (out: String)
    ensures
        out@ == replaced(text@, from, to),
{
    let chars = chars_of(text);
    let mut out = String::new();
    let mut k: usize = 0;
    while k < chars.len()
        invariant
            chars@ == text@,
            k <= chars@.len(),
            out@ == replaced(text@, from, to).take(k as int),
        decreases chars@.len() - k,
    {
        if chars[k] == from {
            out.push(to);
        } else {
            out.push(chars[k]);
        }
        k = k + 1;
        assert(out@ =~= replaced(text@, from, to).take(k as int));
    }
    assert(out@ =~= replaced(text@, from, to));
    out
}

/// The small letter of an ASCII capital; any other character as it is.
pub open spec fn lower_char(c: char) -> char {
    if 'A' <= c && c <= 'Z' {
        ((c as u8) + 32) as u8 as char
    } else {
        c
    }
}

/// A text with its ASCII capitals made small.
pub open spec fn lowered(s: Seq<char>) -> Seq<char> {
    Seq::new(s.len(), |i: int| lower_char(s[i]))
}

/// A text with its ASCII capitals made small.
pub fn ascii_lowercase(text: &str) -> (out: String)
    ensures
        out@ == lowered(text@),
{
    let chars = chars_of(text);
    let mut out = String::new();
    let mut k: usize = 0;
    while k < chars.len()
        invariant
            chars@ == text@,
            k <= chars@.len(),
            out@ == lowered(text@).take(k as int),
        decreases chars@.len() - k,
    {
        let c = chars[k];
        if 'A' <= c && c <= 'Z' {
            out.push(((c as u8) + 32) as char);
        } else {
            out.push(c);
        }
        k = k + 1;
        assert(out@ =~= lowered(text@).take(k as int));
    }
    assert(out@ =~= lowered(text@));
    out
}

/// Whether two texts are the same but for the case of ASCII letters.
pub fn same_ignoring_case(left: &str, right: &str) -> (same: bool)
    ensures
        same == (lowered(left@) == lowered(right@)),
{
    let a = ascii_lowercase(left);
    let b = ascii_lowercase(right);
    a == b
}

} // verus!
