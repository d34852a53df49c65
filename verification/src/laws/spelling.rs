//! How numbers and values are written out.

use vstd::prelude::*;

use crate::json::{json_char, json_chars, json_string, json_value};
use crate::text::{decimal, digit_char, lines_from, lines_of, signed_decimal};
use crate::value::ValueView;
use crate::wording::{words, SubjectView, WordingModel};

verus! {

/// The number that decimal digits spell.
pub open spec fn spelled_number(digits: Seq<char>) -> int {
    digits.fold_left(0int, |n: int, digit: char| 10 * n + (digit as int - '0' as int))
}

/// Decimal digits spell the number that they are written for, with no leading zero.
pub proof fn decimals_spell_their_number(n: nat)
    ensures
        spelled_number(decimal(n)) == n,
        decimal(n).len() > 0,
        forall|i: int| 0 <= i < decimal(n).len() ==> '0' <= #[trigger] decimal(n)[i] <= '9',
        n > 0 ==> decimal(n)[0] != '0',
    decreases n,
{
    let step = |v: int, digit: char| 10 * v + (digit as int - '0' as int);
    let digits = decimal(n);
    if n < 10 {
        assert(digits.drop_last() =~= Seq::empty());
        assert(digits.last() == digit_char(n));
        reveal_with_fuel(Seq::fold_left, 2);
    } else {
        decimals_spell_their_number(n / 10);
        let before = decimal(n / 10);
        assert(digits.drop_last() =~= before);
        assert(digits.last() == digit_char(n % 10));
        assert(digits.fold_left(0int, step) == step(before.fold_left(0int, step), digits.last()));
        assert(digits[0] == before[0]);
        assert forall|i: int| 0 <= i < digits.len() implies '0' <= #[trigger] digits[i] <= '9' by {
            if i < before.len() {
                assert(digits[i] == before[i]);
            }
        }
    }
}

/// A negative number has a minus before the digits of its opposite, and another
/// only its digits.
pub proof fn signs_come_before_digits(n: int)
    ensures
        n < 0 ==> signed_decimal(n).len() > 1 && signed_decimal(n)[0] == '-' && spelled_number(
            signed_decimal(n).skip(1),
        ) == -n,
        n >= 0 ==> spelled_number(signed_decimal(n)) == n && signed_decimal(n)[0] != '-',
{
    if n < 0 {
        decimals_spell_their_number((-n) as nat);
        assert(signed_decimal(n).skip(1) =~= decimal((-n) as nat));
    } else {
        decimals_spell_their_number(n as nat);
        assert('0' <= decimal(n as nat)[0] <= '9');
    }
}

/// A hexadecimal digit stands for this number.
pub open spec fn is_hex(digit: char, d: int) -> bool {
    ||| '0' <= digit <= '9' && d == digit as int - '0' as int
    ||| 'a' <= digit <= 'f' && d == digit as int - 'a' as int + 10
}

/// What stands for a character within a JSON string: the character itself, or, for
/// a quote, a backslash or a control character, an escape.
pub open spec fn stands_for(spelled: Seq<char>, ch: char) -> bool {
    match ch {
        '"' => spelled == seq!['\\', '"'],
        '\\' => spelled == seq!['\\', '\\'],
        '\n' => spelled == seq!['\\', 'n'],
        '\r' => spelled == seq!['\\', 'r'],
        '\t' => spelled == seq!['\\', 't'],
        _ => if ch as int >= 32 {
            spelled == seq![ch]
        } else {
            &&& spelled.len() == 6
            &&& spelled.take(4) == seq!['\\', 'u', '0', '0']
            &&& is_hex(spelled[4], ch as int / 16)
            &&& is_hex(spelled[5], ch as int % 16)
        },
    }
}

proof fn characters_are_spelled(ch: char)
    ensures
        stands_for(json_char(ch), ch),
{
    if ch as int <= 0x1f && ch != '\n' && ch != '\r' && ch != '\t' {
        assert(json_char(ch).take(4) =~= seq!['\\', 'u', '0', '0']);
        assert(0 <= ch as int / 16 < 16 && 0 <= ch as int % 16 < 16);
    }
}

/// A JSON string is its characters one after the other, each as it stands in such a
/// string, between two quotes.
pub proof fn strings_spell_their_characters(text: Seq<char>) -> (spelled: Seq<Seq<char>>)
    ensures
        spelled.len() == text.len(),
        forall|i: int| 0 <= i < text.len() ==> stands_for(#[trigger] spelled[i], text[i]),
        json_string(text) == seq!['"'] + spelled.fold_left(
            Seq::<char>::empty(),
            |before: Seq<char>, next: Seq<char>| before + next,
        ) + seq!['"'],
{
    let spelled = text.map_values(|ch: char| json_char(ch));
    assert forall|i: int| 0 <= i < text.len() implies stands_for(
        #[trigger] spelled[i],
        text[i],
    ) by {
        characters_are_spelled(text[i]);
    }
    characters_follow(text);
    spelled
}

proof fn characters_follow(text: Seq<char>)
    ensures
        json_chars(text) == text.map_values(|ch: char| json_char(ch)).fold_left(
            Seq::<char>::empty(),
            |before: Seq<char>, next: Seq<char>| before + next,
        ),
    decreases text.len(),
{
    let spell = |ch: char| json_char(ch);
    if text.len() > 0 {
        characters_follow(text.drop_last());
        assert(text.map_values(spell).drop_last() =~= text.drop_last().map_values(spell));
        assert(text.map_values(spell).last() == json_char(text.last()));
    }
}

/// A value as JSON: null, a number, a truth value, a string, or the text of a
/// document.
pub proof fn values_are_spelled_as_json(model: WordingModel, value: ValueView)
    ensures
        match value {
            ValueView::Empty => json_value(model, value) == "null"@,
            ValueView::Int(n) => json_value(model, value) == signed_decimal(n as int),
            ValueView::Bool(b) => json_value(model, value) == (if b {
                "true"@
            } else {
                "false"@
            }),
            ValueView::Str(text) => json_value(model, value) == json_string(text),
            ValueView::Float(bits) => if (bits / 4503599627370496) % 2048 == 2047 {
                json_value(model, value) == "null"@
            } else {
                json_value(model, value) == words(model, SubjectView::Number(bits))
            },
            ValueView::Json(document) => json_value(model, value) == (match model(
                SubjectView::Document(document),
            ) {
                Some(text) => text,
                None => "null"@,
            }),
            other => json_value(model, value) == json_string(
                words(model, SubjectView::Plain(other)),
            ),
        },
{
}

/// Lines one after the other, with a line feed between two.
pub open spec fn fed_lines(lines: Seq<Seq<char>>) -> Seq<char>
    decreases lines.len(),
{
    if lines.len() == 0 {
        Seq::empty()
    } else if lines.len() == 1 {
        lines[0]
    } else {
        lines[0] + seq!['\n'] + fed_lines(lines.skip(1))
    }
}

proof fn lines_go_on(text: Seq<char>, i: int, line: Seq<char>)
    requires
        0 <= i <= text.len(),
        text.len() > 0,
        text.last() != '\n',
        forall|k: int| 0 <= k < text.len() ==> #[trigger] text[k] != '\r',
        forall|k: int| 0 <= k < line.len() ==> #[trigger] line[k] != '\r' && line[k] != '\n',
        i < text.len() || line.len() > 0,
    ensures
        lines_from(text, i, line).len() > 0,
        fed_lines(lines_from(text, i, line)) == line + text.skip(i),
        forall|l: int, k: int|
            0 <= l < lines_from(text, i, line).len() && 0 <= k < lines_from(text, i, line)[l].len()
                ==> #[trigger] lines_from(text, i, line)[l][k] != '\n',
    decreases text.len() - i,
{
    let lines = lines_from(text, i, line);
    if i == text.len() {
        assert(text.skip(i) =~= Seq::empty());
        assert(line + text.skip(i) =~= line);
    } else if text[i] == '\n' {
        assert(i + 1 < text.len());
        lines_go_on(text, i + 1, Seq::empty());
        let rest = lines_from(text, i + 1, Seq::empty());
        if line.len() > 0 {
            assert(line.last() == line[line.len() - 1]);
        }
        assert(lines == seq![line] + rest);
        assert(lines.skip(1) =~= rest);
        assert(lines[0] == line);
        assert(line + seq!['\n'] + (Seq::<char>::empty() + text.skip(i + 1)) =~= line + text.skip(
            i,
        ));
        assert forall|l: int, k: int|
            0 <= l < lines.len() && 0 <= k < lines[l].len() implies #[trigger] lines[l][k]
            != '\n' by {
            if l > 0 {
                assert(lines[l] == rest[l - 1]);
                assert(rest[l - 1][k] != '\n');
            }
        }
    } else {
        let more = line.push(text[i]);
        lines_go_on(text, i + 1, more);
        assert(more + text.skip(i + 1) =~= line + text.skip(i));
    }
}

/// The lines of a text that ends in none, without carriage returns, are the text
/// again when put together with line feeds, and hold no line feed themselves.
pub proof fn lines_make_up_their_text(text: Seq<char>)
    requires
        text.len() > 0,
        text.last() != '\n',
        forall|k: int| 0 <= k < text.len() ==> #[trigger] text[k] != '\r',
    ensures
        fed_lines(lines_of(text)) == text,
        forall|l: int, k: int|
            0 <= l < lines_of(text).len() && 0 <= k < lines_of(text)[l].len()
                ==> #[trigger] lines_of(text)[l][k] != '\n',
{
    lines_go_on(text, 0, Seq::empty());
    assert(Seq::<char>::empty() + text.skip(0) =~= text);
}

} // verus!
