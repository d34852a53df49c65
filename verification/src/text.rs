//! Characters and text: the few operations on `String` that the engine needs,
//! each stated over the sequence of characters that the text holds.

use vstd::prelude::*;

use crate::seqs::{name_position, name_position_is, name_position_none};

verus! {

/// `String::push` appends one character.
pub assume_specification[ std::string::String::push ](text: &mut std::string::String, ch: char)
    ensures
        final(text)@ == old(text)@.push(ch),
;

/// The decimal digit for `d`.
pub open spec fn digit_char(d: nat) -> char {
    if d == 0 { '0' } else if d == 1 { '1' } else if d == 2 { '2' } else if d == 3 { '3' }
    else if d == 4 { '4' } else if d == 5 { '5' } else if d == 6 { '6' } else if d == 7 { '7' }
    else if d == 8 { '8' } else { '9' }
}

/// The decimal digits of `n`, most significant first, with no leading zero.
pub open spec fn decimal(n: nat) -> Seq<char>
    decreases n,
{
    if n < 10 {
        seq![digit_char(n)]
    } else {
        decimal(n / 10).push(digit_char(n % 10))
    }
}

/// The decimal digits of `n`, with a leading minus where it is negative.
pub open spec fn signed_decimal(n: int) -> Seq<char> {
    if n < 0 {
        seq!['-'] + decimal((-n) as nat)
    } else {
        decimal(n as nat)
    }
}

fn digit(d: u64) -> (ch: char)
    requires
        d < 10,
    ensures
        ch == digit_char(d as nat),
{
    if d == 0 { '0' } else if d == 1 { '1' } else if d == 2 { '2' } else if d == 3 { '3' }
    else if d == 4 { '4' } else if d == 5 { '5' } else if d == 6 { '6' } else if d == 7 { '7' }
    else if d == 8 { '8' } else { '9' }
}

/// Append the decimal digits of `n` to `out`.
pub fn push_decimal(out: &mut String, n: u64)
    ensures
        final(out)@ == old(out)@ + decimal(n as nat),
    decreases n,
{
    if n < 10 {
        out.push(digit(n));
        assert(decimal(n as nat) =~= seq![digit_char(n as nat)]);
        assert(out@ =~= old(out)@ + decimal(n as nat));
    } else {
        push_decimal(out, n / 10);
        out.push(digit(n % 10));
        assert(out@ =~= old(out)@ + decimal(n as nat));
    }
}

/// Append the decimal spelling of `n` to `out`.
pub fn push_signed(out: &mut String, n: i64)
    ensures
        final(out)@ == old(out)@ + signed_decimal(n as int),
{
    if n < 0 {
        out.push('-');
        if n == i64::MIN {
            push_decimal(out, 9223372036854775808);
        } else {
            push_decimal(out, (-n) as u64);
        }
        assert(out@ =~= old(out)@ + signed_decimal(n as int));
    } else {
        push_decimal(out, n as u64);
    }
}

/// Append `tail` to `out`.
pub fn push_text(out: &mut String, tail: &str)
    ensures
        final(out)@ == old(out)@ + tail@,
{
    out.append(tail);
}

/// The texts of `parts`, one after another, with `separator` between two.
pub open spec fn join_texts(parts: Seq<Seq<char>>, separator: Seq<char>) -> Seq<char>
    decreases parts.len(),
{
    if parts.len() == 0 {
        Seq::empty()
    } else if parts.len() == 1 {
        parts[0]
    } else {
        join_texts(parts.drop_last(), separator) + separator + parts.last()
    }
}

/// Join `parts` with `separator`.
pub fn join(parts: &Vec<String>, separator: &str) -> (out: String)
    ensures
        out@ == join_texts(parts.deep_view(), separator@),
{
    let mut out = String::new();
    let mut i: usize = 0;
    while i < parts.len()
        invariant
            i <= parts.len(),
            out@ == join_texts(parts.deep_view().take(i as int), separator@),
        decreases parts.len() - i,
    {
        let ghost before = out@;
        if i > 0 {
            push_text(&mut out, separator);
        }
        push_text(&mut out, parts[i].as_str());
        proof {
            let taken = parts.deep_view().take(i as int + 1);
            assert(taken.drop_last() =~= parts.deep_view().take(i as int));
            assert(taken.last() == parts[i as int]@);
            assert(out@ =~= join_texts(taken, separator@));
        }
        i = i + 1;
    }
    assert(parts.deep_view().take(parts.len() as int) =~= parts.deep_view());
    out
}

/// A copy of `texts`.
pub fn clone_texts(texts: &Vec<String>) -> (out: Vec<String>)
    ensures
        out.deep_view() == texts.deep_view(),
        out.len() == texts.len(),
{
    let mut out: Vec<String> = Vec::new();
    let mut i: usize = 0;
    while i < texts.len()
        invariant
            i <= texts.len(),
            out.len() == i,
            forall|j: int| 0 <= j < i ==> out[j]@ == texts[j]@,
        decreases texts.len() - i,
    {
        out.push(texts[i].clone());
        i = i + 1;
    }
    assert(out.deep_view() =~= texts.deep_view());
    out
}

/// The first position of `name` in `names`, if it is there.
pub fn position(names: &Vec<String>, name: &String) -> (at: Option<usize>)
    ensures
        match at {
            Some(i) => i < names.len() && name_position(names.deep_view(), name@) == Some(i as int),
            None => name_position(names.deep_view(), name@) is None,
        },
{
    let ghost all = names.deep_view();
    let mut i: usize = 0;
    while i < names.len()
        invariant
            i <= names.len(),
            all == names.deep_view(),
            forall|j: int| 0 <= j < i ==> #[trigger] all[j] != name@,
        decreases names.len() - i,
    {
        assert(all[i as int] == names[i as int]@);
        if names[i] == *name {
            proof {
                name_position_is(all, name@, i as int);
            }
            return Some(i);
        }
        i = i + 1;
    }
    proof {
        name_position_none(all, name@);
    }
    None
}

/// The characters of `text`.
pub fn characters(text: &str) -> (chars: Vec<char>)
    ensures
        chars@ == text@,
{
    let mut chars: Vec<char> = Vec::new();
    for ch in it: text.chars()
        invariant
            it.seq() == text@,
            chars@ == text@.take(it.index() as int),
    {
        chars.push(ch);
        assert(chars@ =~= text@.take(it.index() as int + 1));
    }
    assert(chars@ =~= text@);
    chars
}

/// Whether the characters of `suffix` are the last characters of `text`.
pub fn text_ends_with(text: &String, suffix: &String) -> (ends: bool)
    ensures
        ends == suffix@.is_suffix_of(text@),
{
    let chars = characters(text.as_str());
    let tail = characters(suffix.as_str());
    if tail.len() > chars.len() {
        return false;
    }
    let from: usize = chars.len() - tail.len();
    let mut i: usize = 0;
    while i < tail.len()
        invariant
            i <= tail.len(),
            from + tail.len() == chars.len(),
            chars@ == text@,
            tail@ == suffix@,
            forall|j: int| 0 <= j < i ==> #[trigger] tail[j] == chars[from + j],
        decreases tail.len() - i,
    {
        if tail[i] != chars[from + i] {
            assert(text@.subrange(from as int, text@.len() as int)[i as int] != suffix@[i as int]);
            return false;
        }
        i = i + 1;
    }
    assert(suffix@ =~= text@.subrange(from as int, text@.len() as int));
    true
}

/// Whether `ch` is one of the characters of `text`.
pub fn text_contains(text: &String, ch: char) -> (found: bool)
    ensures
        found == text@.contains(ch),
{
    let chars = characters(text.as_str());
    let mut i: usize = 0;
    while i < chars.len()
        invariant
            i <= chars.len(),
            chars@ == text@,
            forall|j: int| 0 <= j < i ==> #[trigger] chars[j] != ch,
        decreases chars.len() - i,
    {
        if chars[i] == ch {
            assert(text@[i as int] == ch);
            return true;
        }
        i = i + 1;
    }
    false
}

/// The lines of a text: what stands between line feeds, without a carriage
/// return before one; a text that ends in a line feed has no empty last line.
pub open spec fn lines_of(text: Seq<char>) -> Seq<Seq<char>> {
    lines_from(text, 0, Seq::empty())
}

/// The lines from character `i` on, the current one begun with `line`.
pub open spec fn lines_from(text: Seq<char>, i: int, line: Seq<char>) -> Seq<Seq<char>>
    decreases text.len() - i,
{
    if i < 0 || i >= text.len() {
        if line.len() == 0 {
            Seq::empty()
        } else {
            seq![line]
        }
    } else if text[i] == '\n' {
        seq![
            if line.len() > 0 && line.last() == '\r' {
                line.drop_last()
            } else {
                line
            },
        ] + lines_from(text, i + 1, Seq::empty())
    } else {
        lines_from(text, i + 1, line.push(text[i]))
    }
}

fn text_of(chars: &Vec<char>, n: usize) -> (text: String)
    requires
        n <= chars.len(),
    ensures
        text@ == chars@.take(n as int),
{
    let mut text = String::new();
    let mut i: usize = 0;
    while i < n
        invariant
            i <= n <= chars.len(),
            text@ == chars@.take(i as int),
        decreases n - i,
    {
        text.push(chars[i]);
        assert(text@ =~= chars@.take(i + 1));
        i = i + 1;
    }
    text
}

/// The lines of a text.
pub fn lines(text: &str) -> (lines: Vec<String>)
    ensures
        lines.deep_view() == lines_of(text@),
{
    let chars = characters(text);
    let mut lines: Vec<String> = Vec::new();
    let mut line: Vec<char> = Vec::new();
    let mut i: usize = 0;
    assert(lines.deep_view() + lines_from(text@, 0, line@) =~= lines_of(text@));
    while i < chars.len()
        invariant
            i <= chars.len(),
            chars@ == text@,
            lines.deep_view() + lines_from(text@, i as int, line@) == lines_of(text@),
        decreases chars.len() - i,
    {
        let ghost before = lines.deep_view();
        let ghost held = line@;
        if chars[i] == '\n' {
            let n: usize = line.len();
            let kept: usize = if n > 0 && line[n - 1] == '\r' {
                n - 1
            } else {
                n
            };
            let done = text_of(&line, kept);
            assert(done@ =~= (if held.len() > 0 && held.last() == '\r' {
                held.drop_last()
            } else {
                held
            }));
            let ghost shown = done@;
            lines.push(done);
            line = Vec::new();
            assert(lines.deep_view() =~= before.push(shown));
            assert(line@ =~= Seq::<char>::empty());
            assert(before.push(shown) + lines_from(text@, i + 1, line@) =~= before + (seq![shown]
                + lines_from(text@, i + 1, line@)));
        } else {
            line.push(chars[i]);
        }
        i = i + 1;
    }
    if line.len() > 0 {
        let ghost before = lines.deep_view();
        let last = text_of(&line, line.len());
        assert(last@ =~= line@);
        lines.push(last);
        assert(lines.deep_view() =~= before + seq![line@]);
    } else {
        assert(line@.len() == 0);
        assert(lines.deep_view() =~= lines_of(text@));
    }
    lines
}

} // verus!
