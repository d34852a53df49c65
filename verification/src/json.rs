//! JSON text.

use vstd::prelude::*;

use crate::text::{characters, push_signed, push_text, signed_decimal};
use crate::value::{Value, ValueView};
use crate::wording::{words, Subject, SubjectView, Wording, WordingModel};

verus! {

/// A hexadecimal digit, in lower case.
pub open spec fn hex_digit(d: int) -> char {
    if d == 0 {
        '0'
    } else if d == 1 {
        '1'
    } else if d == 2 {
        '2'
    } else if d == 3 {
        '3'
    } else if d == 4 {
        '4'
    } else if d == 5 {
        '5'
    } else if d == 6 {
        '6'
    } else if d == 7 {
        '7'
    } else if d == 8 {
        '8'
    } else if d == 9 {
        '9'
    } else if d == 10 {
        'a'
    } else if d == 11 {
        'b'
    } else if d == 12 {
        'c'
    } else if d == 13 {
        'd'
    } else if d == 14 {
        'e'
    } else {
        'f'
    }
}

fn hex(d: u32) -> (ch: char)
    ensures
        ch == hex_digit(d as int),
{
    if d == 0 {
        '0'
    } else if d == 1 {
        '1'
    } else if d == 2 {
        '2'
    } else if d == 3 {
        '3'
    } else if d == 4 {
        '4'
    } else if d == 5 {
        '5'
    } else if d == 6 {
        '6'
    } else if d == 7 {
        '7'
    } else if d == 8 {
        '8'
    } else if d == 9 {
        '9'
    } else if d == 10 {
        'a'
    } else if d == 11 {
        'b'
    } else if d == 12 {
        'c'
    } else if d == 13 {
        'd'
    } else if d == 14 {
        'e'
    } else {
        'f'
    }
}

/// A character as it stands in a JSON string: the quote, the backslash and the
/// control characters are escaped.
pub open spec fn json_char(ch: char) -> Seq<char> {
    if ch == '"' {
        seq!['\\', '"']
    } else if ch == '\\' {
        seq!['\\', '\\']
    } else if ch == '\n' {
        seq!['\\', 'n']
    } else if ch == '\r' {
        seq!['\\', 'r']
    } else if ch == '\t' {
        seq!['\\', 't']
    } else if (ch as int) <= 0x1f {
        seq!['\\', 'u', '0', '0', hex_digit(ch as int / 16), hex_digit(ch as int % 16)]
    } else {
        seq![ch]
    }
}

/// The characters of a text as they stand in a JSON string.
pub open spec fn json_chars(text: Seq<char>) -> Seq<char>
    decreases text.len(),
{
    if text.len() == 0 {
        Seq::empty()
    } else {
        json_chars(text.drop_last()) + json_char(text.last())
    }
}

/// A text as a JSON string.
pub open spec fn json_string(text: Seq<char>) -> Seq<char> {
    seq!['"'] + json_chars(text) + seq!['"']
}

fn push_json_char(out: &mut String, ch: char)
    ensures
        final(out)@ == old(out)@ + json_char(ch),
{
    if ch == '"' {
        out.push('\\');
        out.push('"');
    } else if ch == '\\' {
        out.push('\\');
        out.push('\\');
    } else if ch == '\n' {
        out.push('\\');
        out.push('n');
    } else if ch == '\r' {
        out.push('\\');
        out.push('r');
    } else if ch == '\t' {
        out.push('\\');
        out.push('t');
    } else if (ch as u32) <= 0x1f {
        let code: u32 = ch as u32;
        out.push('\\');
        out.push('u');
        out.push('0');
        out.push('0');
        out.push(hex(code / 16));
        out.push(hex(code % 16));
    } else {
        out.push(ch);
    }
    assert(out@ =~= old(out)@ + json_char(ch));
}

/// Append a text to `out` as a JSON string.
pub fn push_json_string(out: &mut String, text: &str)
    ensures
        final(out)@ == old(out)@ + json_string(text@),
{
    let ghost before = out@;
    out.push('"');
    let chars = characters(text);
    let mut i: usize = 0;
    assert(out@ =~= before + seq!['"'] + json_chars(text@.take(0)));
    while i < chars.len()
        invariant
            i <= chars.len(),
            chars@ == text@,
            out@ == before + seq!['"'] + json_chars(text@.take(i as int)),
        decreases chars.len() - i,
    {
        push_json_char(out, chars[i]);
        proof {
            let taken = text@.take(i + 1);
            assert(taken.drop_last() =~= text@.take(i as int));
            assert(taken.last() == text@[i as int]);
            assert(out@ =~= before + seq!['"'] + json_chars(taken));
        }
        i = i + 1;
    }
    assert(text@.take(text@.len() as int) =~= text@);
    out.push('"');
    assert(out@ =~= before + json_string(text@));
}

/// The float of these bits is a number: neither infinite nor not-a-number.
pub open spec fn finite(bits: u64) -> bool {
    (bits / 0x10_0000_0000_0000) % 2048 != 2047
}

/// A value as JSON text: a float that is no number and a document that cannot
/// be read are null; a value of a type that JSON lacks is a string.
pub open spec fn json_value(model: WordingModel, value: ValueView) -> Seq<char> {
    match value {
        ValueView::Empty => "null"@,
        ValueView::Int(n) => signed_decimal(n as int),
        ValueView::Float(bits) => if finite(bits) {
            words(model, SubjectView::Number(bits))
        } else {
            "null"@
        },
        ValueView::Bool(b) => if b {
            "true"@
        } else {
            "false"@
        },
        ValueView::Str(s) => json_string(s),
        ValueView::Json(doc) => match model(SubjectView::Document(doc)) {
            Some(text) => text,
            None => "null"@,
        },
        _ => json_string(words(model, SubjectView::Plain(value))),
    }
}

/// Append a value to `out` as JSON text.
pub fn push_json_value<T: Fn(Subject) -> Option<String>>(
    out: &mut String,
    wording: &Wording<T>,
    value: &Value,
)
    requires
        wording.ok(),
    ensures
        final(out)@ == old(out)@ + json_value(wording.model@, value.deep_view()),
{
    match value {
        Value::Empty => push_text(out, "null"),
        Value::Int(n) => push_signed(out, *n),
        Value::Float(bits) => {
            if (*bits / 0x10_0000_0000_0000) % 2048 != 2047 {
                let text = wording.word(Subject::Number(*bits));
                push_text(out, text.as_str());
            } else {
                push_text(out, "null");
            }
        },
        Value::Bool(b) => {
            if *b {
                push_text(out, "true");
            } else {
                push_text(out, "false");
            }
        },
        Value::Str(s) => push_json_string(out, s.as_str()),
        Value::Json(doc) => match wording.find(Subject::Document(doc)) {
            Some(text) => push_text(out, text.as_str()),
            None => push_text(out, "null"),
        },
        _ => {
            let text = wording.word(Subject::Plain(value));
            push_json_string(out, text.as_str());
        },
    }
}

/// A JSON string tells the texts that it can stand for apart.
pub proof fn json_strings_differ(a: Seq<char>, b: Seq<char>)
    requires
        json_string(a) == json_string(b),
    ensures
        a == b,
{
    let (x, y) = (json_chars(a), json_chars(b));
    assert(x =~= json_string(a).subrange(1, json_string(a).len() - 1));
    assert(y =~= json_string(b).subrange(1, json_string(b).len() - 1));
    json_chars_differ(a, b);
}

/// The first character of a text leads its spelling.
proof fn json_chars_head(text: Seq<char>)
    requires
        text.len() > 0,
    ensures
        json_chars(text) == json_char(text[0]) + json_chars(text.drop_first()),
    decreases text.len(),
{
    let rest = text.drop_first();
    if text.len() == 1 {
        assert(text.drop_last() =~= Seq::<char>::empty());
        assert(rest =~= Seq::<char>::empty());
        assert(json_chars(text.drop_last()) =~= Seq::<char>::empty());
        assert(json_chars(text) =~= json_char(text[0]) + json_chars(rest));
    } else {
        json_chars_head(text.drop_last());
        assert(text.drop_last().drop_first() =~= rest.drop_last());
        assert(json_chars(text) =~= json_char(text[0]) + json_chars(rest));
    }
}

/// No spelling of a character begins another's.
proof fn json_char_prefix(a: char, b: char, x: Seq<char>, y: Seq<char>)
    requires
        json_char(a) + x == json_char(b) + y,
    ensures
        a == b,
        x == y,
{
    let (s, t) = (json_char(a) + x, json_char(b) + y);
    let (p, q) = (json_char(a), json_char(b));
    assert(s[0] == p[0] && t[0] == q[0]);
    if p.len() > 1 && q.len() > 1 {
        assert(s[1] == p[1] && t[1] == q[1]);
        if p.len() == 6 && q.len() == 6 {
            assert(s[4] == p[4] && t[4] == q[4]);
            assert(s[5] == p[5] && t[5] == q[5]);
            assert(a as int == 16 * (a as int / 16) + a as int % 16);
            assert(b as int == 16 * (b as int / 16) + b as int % 16);
            assert(a as int / 16 == b as int / 16);
            assert(a as int % 16 == b as int % 16);
        }
    }
    assert(a == b);
    assert(x =~= s.subrange(p.len() as int, s.len() as int));
    assert(y =~= t.subrange(q.len() as int, t.len() as int));
}

proof fn json_chars_differ(a: Seq<char>, b: Seq<char>)
    requires
        json_chars(a) == json_chars(b),
    ensures
        a == b,
    decreases a.len(),
{
    if a.len() == 0 {
        if b.len() > 0 {
            json_chars_head(b);
            assert(json_chars(b).len() > 0);
        }
        assert(a =~= b);
    } else {
        json_chars_head(a);
        assert(json_chars(a).len() > 0);
        if b.len() > 0 {
            json_chars_head(b);
            json_char_prefix(a[0], b[0], json_chars(a.drop_first()), json_chars(b.drop_first()));
            json_chars_differ(a.drop_first(), b.drop_first());
            assert(a =~= seq![a[0]] + a.drop_first());
            assert(b =~= seq![b[0]] + b.drop_first());
        }
    }
}

/// No control character and no bare quote stands inside a JSON string.
pub proof fn json_strings_are_closed(text: Seq<char>, i: int)
    requires
        0 < i < json_string(text).len() - 1,
    ensures
        json_string(text)[i] as int > 0x1f,
        json_string(text)[i] == '"' ==> json_string(text)[i - 1] == '\\',
    decreases text.len(),
{
    let whole = json_string(text);
    let inner = json_chars(text);
    assert(whole[i] == inner[i - 1]);
    if text.len() > 0 {
        let head = json_chars(text.drop_last());
        if i - 1 < head.len() {
            json_strings_are_closed(text.drop_last(), i);
            let shorter = json_string(text.drop_last());
            assert(shorter[i] == head[i - 1]);
            assert(whole[i] == shorter[i]);
            if i > 1 {
                assert(whole[i - 1] == inner[i - 2] && shorter[i - 1] == head[i - 2]);
            }
            assert(whole[i - 1] == shorter[i - 1]);
        } else {
            let k = i - 1 - head.len();
            assert(inner[i - 1] == json_char(text.last())[k]);
            if k > 0 {
                assert(whole[i - 1] == inner[i - 2]);
                assert(inner[i - 2] == json_char(text.last())[k - 1]);
            }
        }
    }
}

} // verus!
