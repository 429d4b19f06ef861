//! JSON texts.

use vstd::prelude::*;

verus! {

/// A JSON value. The fields of an object stand in the order in which they are written.
pub enum Json {
    Null,
    /// A number, by its digits.
    Number(Seq<char>),
    /// A string, by the text that it means.
    Text(Seq<char>),
    /// A string, by what stands between its quotation marks.
    Verbatim(Seq<char>),
    List(Seq<Json>),
    Object(Seq<(Seq<char>, Json)>),
}

/// The digit for a number below sixteen.
pub open spec fn hex_digit(n: int) -> char {
    "0123456789ABCDEF"@[n]
}

/// How a character is written inside a JSON string.
pub open spec fn escaped_char(c: char) -> Seq<char> {
    if c == '"' {
        seq!['\\', '"']
    } else if c == '\\' {
        seq!['\\', '\\']
    } else if c == '\n' {
        seq!['\\', 'n']
    } else if c == '\r' {
        seq!['\\', 'r']
    } else if c == '\t' {
        seq!['\\', 't']
    } else if c <= '\u{1f}' {
        seq!['\\', 'u', '0', '0', hex_digit(c as int / 16), hex_digit(c as int % 16)]
    } else {
        seq![c]
    }
}

/// How a text is written inside a JSON string.
pub open spec fn escaped(text: Seq<char>) -> Seq<char>
    decreases text.len(),
{
    if text.len() == 0 {
        Seq::empty()
    } else {
        escaped(text.drop_last()) + escaped_char(text.last())
    }
}

/// Text between quotation marks.
pub open spec fn in_quotes(text: Seq<char>) -> Seq<char> {
    seq!['"'] + text + seq!['"']
}

/// How a JSON value is written, with no space between its parts.
pub open spec fn json_text(value: Json) -> Seq<char>
    decreases value,
{
    match value {
        Json::Null => "null"@,
        Json::Number(digits) => digits,
        Json::Text(text) => in_quotes(escaped(text)),
        Json::Verbatim(text) => in_quotes(text),
        Json::List(items) => seq!['['] + items_text(items) + seq![']'],
        Json::Object(fields) => seq!['{'] + fields_text(fields) + seq!['}'],
    }
}

/// How values are written one after the other, with commas between them.
pub open spec fn items_text(items: Seq<Json>) -> Seq<char>
    decreases items,
{
    if items.len() == 0 {
        Seq::empty()
    } else if items.len() == 1 {
        json_text(items[0])
    } else {
        items_text(items.drop_last()) + seq![','] + json_text(items[items.len() - 1])
    }
}

/// How the fields of an object are written, with commas between them.
pub open spec fn fields_text(fields: Seq<(Seq<char>, Json)>) -> Seq<char>
    decreases fields,
{
    if fields.len() == 0 {
        Seq::empty()
    } else if fields.len() == 1 {
        in_quotes(escaped(fields[0].0)) + seq![':'] + json_text(fields[0].1)
    } else {
        let last = fields[fields.len() - 1];
        fields_text(fields.drop_last()) + seq![','] + in_quotes(escaped(last.0)) + seq![':']
            + json_text(last.1)
    }
}

/// The value of a hexadecimal digit.
pub open spec fn hex_value(c: char) -> Option<int> {
    if '0' <= c <= '9' {
        Some(c as int - '0' as int)
    } else if 'A' <= c <= 'F' {
        Some(c as int - 'A' as int + 10)
    } else if 'a' <= c <= 'f' {
        Some(c as int - 'a' as int + 10)
    } else {
        None
    }
}

/// What the escape at the start of `text` means, and how long it is. A half of a surrogate
/// pair means nothing by itself.
pub open spec fn read_escape(text: Seq<char>) -> Option<(char, int)> {
    if text.len() < 2 {
        None
    } else if text[1] == '"' || text[1] == '\\' || text[1] == '/' {
        Some((text[1], 2))
    } else if text[1] == 'b' {
        Some(('\u{8}', 2))
    } else if text[1] == 'f' {
        Some(('\u{c}', 2))
    } else if text[1] == 'n' {
        Some(('\n', 2))
    } else if text[1] == 'r' {
        Some(('\r', 2))
    } else if text[1] == 't' {
        Some(('\t', 2))
    } else if text[1] == 'u' && text.len() >= 6 {
        match (hex_value(text[2]), hex_value(text[3]), hex_value(text[4]), hex_value(text[5])) {
            (Some(a), Some(b), Some(c), Some(d)) => {
                let code = a * 4096 + b * 256 + c * 16 + d;
                if code < 0xd800 || 0xdfff < code {
                    Some((code as char, 6))
                } else {
                    None
                }
            },
            _ => None,
        }
    } else {
        None
    }
}

/// Reads a JSON string whose opening quotation mark has been read: the text that it means,
/// and what follows the closing quotation mark.
pub open spec fn read_string(text: Seq<char>) -> Option<(Seq<char>, Seq<char>)>
    decreases text.len(),
{
    if text.len() == 0 || text[0] <= '\u{1f}' {
        None
    } else if text[0] == '"' {
        Some((Seq::empty(), text.skip(1)))
    } else {
        let (c, len) = if text[0] == '\\' {
            match read_escape(text) {
                Some(read) => read,
                None => (' ', 0),
            }
        } else {
            (text[0], 1)
        };
        if 0 < len <= text.len() {
            match read_string(text.skip(len)) {
                Some((rest, after)) => Some((seq![c] + rest, after)),
                None => None,
            }
        } else {
            None
        }
    }
}

/// A text that is written inside a JSON string as it stands.
pub open spec fn is_plain(text: Seq<char>) -> bool {
    forall|i: int|
        0 <= i < text.len() ==> '\u{20}' <= #[trigger] text[i] && text[i] != '"' && text[i] != '\\'
}

proof fn lemma_escaped_concat(a: Seq<char>, b: Seq<char>)
    ensures
        escaped(a + b) == escaped(a) + escaped(b),
    decreases b.len(),
{
    if b.len() == 0 {
        assert(a + b =~= a);
        assert(escaped(a) + escaped(b) =~= escaped(a));
    } else {
        lemma_escaped_concat(a, b.drop_last());
        assert((a + b).drop_last() =~= a + b.drop_last());
        assert((a + b).last() == b.last());
        assert(escaped(a) + (escaped(b.drop_last()) + escaped_char(b.last())) =~= (escaped(a)
            + escaped(b.drop_last())) + escaped_char(b.last()));
    }
}

proof fn lemma_escaped_one(c: char)
    ensures
        escaped(seq![c]) == escaped_char(c),
{
    assert(seq![c].drop_last() =~= Seq::<char>::empty());
    assert(escaped(seq![c].drop_last()) =~= Seq::<char>::empty());
    assert(Seq::<char>::empty() + escaped_char(c) =~= escaped_char(c));
}

/// A plain text is written as it stands.
pub proof fn law_plain_is_unchanged(text: Seq<char>)
    requires
        is_plain(text),
    ensures
        escaped(text) == text,
    decreases text.len(),
{
    if text.len() > 0 {
        let init = text.drop_last();
        assert forall|i: int| 0 <= i < init.len() implies '\u{20}' <= #[trigger] init[i] && init[i]
            != '"' && init[i] != '\\' by {
            assert(init[i] == text[i]);
        }
        law_plain_is_unchanged(init);
        assert('\u{20}' <= text[text.len() - 1]);
        assert(escaped(text) =~= text);
    }
}

proof fn lemma_hex_digits()
    ensures
        forall|n: int| 0 <= n < 16 ==> hex_value(#[trigger] hex_digit(n)) == Some(n),
{
    reveal_strlit("0123456789ABCDEF");
}

/// What is written of one character reads back as that character.
proof fn lemma_read_escaped_char(c: char, rest: Seq<char>)
    ensures
        read_string(escaped_char(c) + rest) == match read_string(rest) {
            Some((text, after)) => Some((seq![c] + text, after)),
            None => None,
        },
{
    let s = escaped_char(c) + rest;
    assert(s.skip(escaped_char(c).len() as int) =~= rest);
    lemma_hex_digits();
    if c <= '\u{1f}' {
        let n = c as int;
        assert(n == (n / 16) * 16 + n % 16);
    }
}

/// Reading a written string gives back the text it was written for, and what follows it.
pub proof fn law_string_reads_back(text: Seq<char>, after: Seq<char>)
    ensures
        read_string(escaped(text) + seq!['"'] + after) == Some((text, after)),
    decreases text.len(),
{
    if text.len() == 0 {
        assert((escaped(text) + seq!['"'] + after).skip(1) =~= after);
        assert(text =~= Seq::empty());
    } else {
        let head = seq![text[0]];
        let tail = text.drop_first();
        assert(head + tail =~= text);
        lemma_escaped_concat(head, tail);
        lemma_escaped_one(text[0]);
        law_string_reads_back(tail, after);
        lemma_read_escaped_char(text[0], escaped(tail) + seq!['"'] + after);
        assert(escaped(text) + seq!['"'] + after =~= escaped_char(text[0]) + (escaped(tail) + seq![
            '"',
        ] + after));
    }
}

/// Texts that are written alike are the same.
pub proof fn law_escaped_injective(a: Seq<char>, b: Seq<char>)
    requires
        escaped(a) == escaped(b),
    ensures
        a == b,
{
    law_string_reads_back(a, Seq::empty());
    law_string_reads_back(b, Seq::empty());
}

proof fn lemma_escaped_char_holds_no_control(c: char)
    ensures
        forall|i: int| 0 <= i < escaped_char(c).len() ==> '\u{20}' <= #[trigger] escaped_char(c)[i],
{
    lemma_hex_digits();
    if c <= '\u{1f}' {
        let n = c as int;
        assert(hex_value(hex_digit(n / 16)) is Some);
        assert(hex_value(hex_digit(n % 16)) is Some);
    }
}

/// What is written inside a JSON string holds no control character.
pub proof fn law_escaped_holds_no_control(text: Seq<char>)
    ensures
        forall|i: int| 0 <= i < escaped(text).len() ==> '\u{20}' <= #[trigger] escaped(text)[i],
    decreases text.len(),
{
    if text.len() > 0 {
        law_escaped_holds_no_control(text.drop_last());
        lemma_escaped_char_holds_no_control(text.last());
        let init = escaped(text.drop_last());
        assert forall|i: int| 0 <= i < escaped(text).len() implies '\u{20}' <= #[trigger] escaped(
            text,
        )[i] by {
            if i < init.len() {
                assert(escaped(text)[i] == init[i]);
            } else {
                assert(escaped(text)[i] == escaped_char(text.last())[i - init.len()]);
            }
        }
    }
}

/// A value whose numbers are digits, and whose strings are given by the texts that they mean.
pub open spec fn is_document(value: Json) -> bool
    decreases value,
{
    match value {
        Json::Null => true,
        Json::Number(digits) => digits.len() > 0 && forall|i: int|
            0 <= i < digits.len() ==> is_digit(#[trigger] digits[i]),
        Json::Text(text) => true,
        Json::Verbatim(text) => false,
        Json::List(items) => forall|i: int|
            0 <= i < items.len() ==> is_document(#[trigger] items[i]),
        Json::Object(fields) => forall|i: int|
            0 <= i < fields.len() ==> is_document((#[trigger] fields[i]).1),
    }
}

/// A decimal digit.
pub open spec fn is_digit(c: char) -> bool {
    '0' <= c <= '9'
}

/// The text goes on with a digit.
pub open spec fn starts_with_digit(text: Seq<char>) -> bool {
    text.len() > 0 && is_digit(text[0])
}

/// What is written of an object's field.
spec fn field_text(field: (Seq<char>, Json)) -> Seq<char> {
    in_quotes(escaped(field.0)) + seq![':'] + json_text(field.1)
}

/// What follows the first of several values that are written one after the other.
spec fn items_tail(items: Seq<Json>) -> Seq<char> {
    if items.len() == 0 {
        Seq::empty()
    } else {
        seq![','] + items_text(items)
    }
}

spec fn fields_tail(fields: Seq<(Seq<char>, Json)>) -> Seq<char> {
    if fields.len() == 0 {
        Seq::empty()
    } else {
        seq![','] + fields_text(fields)
    }
}

proof fn lemma_items_front(items: Seq<Json>)
    requires
        items.len() > 0,
    ensures
        items_text(items) == json_text(items[0]) + items_tail(items.drop_first()),
    decreases items.len(),
{
    if items.len() == 1 {
        assert(items_text(items) =~= json_text(items[0]) + items_tail(items.drop_first()));
    } else {
        let init = items.drop_last();
        let rest = items.drop_first();
        lemma_items_front(init);
        assert(init.drop_first() =~= rest.drop_last());
        if rest.len() == 1 {
            assert(rest.drop_last().len() == 0);
        }
        assert(items_text(items) =~= json_text(items[0]) + items_tail(rest));
    }
}

proof fn lemma_fields_front(fields: Seq<(Seq<char>, Json)>)
    requires
        fields.len() > 0,
    ensures
        fields_text(fields) == field_text(fields[0]) + fields_tail(fields.drop_first()),
    decreases fields.len(),
{
    if fields.len() == 1 {
        assert(fields_text(fields) =~= field_text(fields[0]) + fields_tail(fields.drop_first()));
    } else {
        let init = fields.drop_last();
        let rest = fields.drop_first();
        lemma_fields_front(init);
        assert(init.drop_first() =~= rest.drop_last());
        if rest.len() == 1 {
            assert(rest.drop_last().len() == 0);
        }
        assert(fields_text(fields) =~= field_text(fields[0]) + fields_tail(rest));
    }
}

/// The first character of a written value tells what kind of value it is.
proof fn lemma_first_char(value: Json)
    requires
        is_document(value),
    ensures
        json_text(value).len() > 0,
        json_text(value)[0] == match value {
            Json::Null => 'n',
            Json::Number(digits) => digits[0],
            Json::Text(text) => '"',
            Json::Verbatim(text) => '"',
            Json::List(items) => '[',
            Json::Object(fields) => '{',
        },
{
    reveal_strlit("null");
}

proof fn lemma_same_numbers(a: Seq<char>, b: Seq<char>, after_a: Seq<char>, after_b: Seq<char>)
    requires
        forall|i: int| 0 <= i < a.len() ==> is_digit(#[trigger] a[i]),
        forall|i: int| 0 <= i < b.len() ==> is_digit(#[trigger] b[i]),
        a + after_a == b + after_b,
        !starts_with_digit(after_a),
        !starts_with_digit(after_b),
    ensures
        a == b,
        after_a == after_b,
{
    if a.len() < b.len() {
        assert(is_digit(b[a.len() as int]));
        assert((b + after_b)[a.len() as int] == b[a.len() as int]);
        assert((a + after_a)[a.len() as int] == after_a[0]);
    }
    if b.len() < a.len() {
        assert(is_digit(a[b.len() as int]));
        assert((a + after_a)[b.len() as int] == a[b.len() as int]);
        assert((b + after_b)[b.len() as int] == after_b[0]);
    }
    lemma_same_lengths(a, b, after_a, after_b);
}

/// Two equal concatenations whose first parts are equally long have equal parts.
proof fn lemma_same_lengths(a: Seq<char>, b: Seq<char>, after_a: Seq<char>, after_b: Seq<char>)
    requires
        a.len() == b.len(),
        a + after_a == b + after_b,
    ensures
        a == b,
        after_a == after_b,
{
    assert(a =~= (a + after_a).take(a.len() as int));
    assert(b =~= (b + after_b).take(b.len() as int));
    assert(after_a =~= (a + after_a).skip(a.len() as int));
    assert(after_b =~= (b + after_b).skip(b.len() as int));
}

/// Two written strings, with what follows them, are alike only where both parts are.
proof fn lemma_same_strings(a: Seq<char>, b: Seq<char>, after_a: Seq<char>, after_b: Seq<char>)
    requires
        in_quotes(escaped(a)) + after_a == in_quotes(escaped(b)) + after_b,
    ensures
        a == b,
        after_a == after_b,
{
    law_string_reads_back(a, after_a);
    law_string_reads_back(b, after_b);
    assert((in_quotes(escaped(a)) + after_a).skip(1) =~= escaped(a) + seq!['"'] + after_a);
    assert((in_quotes(escaped(b)) + after_b).skip(1) =~= escaped(b) + seq!['"'] + after_b);
}

proof fn lemma_same_items(a: Seq<Json>, b: Seq<Json>, after_a: Seq<char>, after_b: Seq<char>)
    requires
        forall|i: int| 0 <= i < a.len() ==> is_document(#[trigger] a[i]),
        forall|i: int| 0 <= i < b.len() ==> is_document(#[trigger] b[i]),
        items_text(a) + seq![']'] + after_a == items_text(b) + seq![']'] + after_b,
    ensures
        a == b,
        after_a == after_b,
    decreases a,
{
    let left = items_text(a) + seq![']'] + after_a;
    let right = items_text(b) + seq![']'] + after_b;
    if a.len() > 0 {
        lemma_items_front(a);
        lemma_first_char(a[0]);
        assert(left[0] == json_text(a[0])[0]);
    } else {
        assert(left[0] == ']');
    }
    if b.len() > 0 {
        lemma_items_front(b);
        lemma_first_char(b[0]);
        assert(right[0] == json_text(b[0])[0]);
    } else {
        assert(right[0] == ']');
    }
    if a.len() > 0 && b.len() > 0 {
        let rest_a = items_tail(a.drop_first()) + seq![']'] + after_a;
        let rest_b = items_tail(b.drop_first()) + seq![']'] + after_b;
        assert(left =~= json_text(a[0]) + rest_a);
        assert(right =~= json_text(b[0]) + rest_b);
        law_json_text_unambiguous(a[0], b[0], rest_a, rest_b);
        if a.len() == 1 {
            assert(rest_a[0] == ']');
        } else {
            assert(rest_a[0] == ',');
        }
        if b.len() == 1 {
            assert(rest_b[0] == ']');
        } else {
            assert(rest_b[0] == ',');
        }
        assert(a =~= seq![a[0]] + a.drop_first());
        assert(b =~= seq![b[0]] + b.drop_first());
        if a.len() == 1 {
            assert(after_a =~= rest_a.skip(1));
            assert(after_b =~= rest_b.skip(1));
            assert(a.drop_first() =~= b.drop_first());
        } else {
            assert(rest_a.skip(1) =~= items_text(a.drop_first()) + seq![']'] + after_a);
            assert(rest_b.skip(1) =~= items_text(b.drop_first()) + seq![']'] + after_b);
            lemma_same_items(a.drop_first(), b.drop_first(), after_a, after_b);
        }
    } else {
        assert(a =~= b);
        assert(after_a =~= left.skip(1));
        assert(after_b =~= right.skip(1));
    }
}

/// What follows the first field of an object that is written to its end.
spec fn fields_rest(fields: Seq<(Seq<char>, Json)>, after: Seq<char>) -> Seq<char> {
    fields_tail(fields.drop_first()) + seq!['}'] + after
}

proof fn lemma_fields_split(fields: Seq<(Seq<char>, Json)>, after: Seq<char>)
    requires
        fields.len() > 0,
    ensures
        fields_text(fields) + seq!['}'] + after == in_quotes(escaped(fields[0].0)) + (seq![':']
            + json_text(fields[0].1) + fields_rest(fields, after)),
        (fields_text(fields) + seq!['}'] + after)[0] == '"',
{
    lemma_fields_front(fields);
    assert(fields_text(fields) + seq!['}'] + after =~= in_quotes(escaped(fields[0].0)) + (seq![':']
        + json_text(fields[0].1) + fields_rest(fields, after)));
}

proof fn lemma_fields_rest(fields: Seq<(Seq<char>, Json)>, after: Seq<char>)
    requires
        fields.len() > 0,
    ensures
        fields_rest(fields, after).len() > 0,
        fields_rest(fields, after)[0] == if fields.len() == 1 {
            '}'
        } else {
            ','
        },
        fields_rest(fields, after).skip(1) == if fields.len() == 1 {
            after
        } else {
            fields_text(fields.drop_first()) + seq!['}'] + after
        },
{
    if fields.len() == 1 {
        assert(fields_rest(fields, after).skip(1) =~= after);
    } else {
        assert(fields_rest(fields, after).skip(1) =~= fields_text(fields.drop_first()) + seq!['}']
            + after);
    }
}

proof fn lemma_same_fields(
    a: Seq<(Seq<char>, Json)>,
    b: Seq<(Seq<char>, Json)>,
    after_a: Seq<char>,
    after_b: Seq<char>,
)
    requires
        forall|i: int| 0 <= i < a.len() ==> is_document((#[trigger] a[i]).1),
        forall|i: int| 0 <= i < b.len() ==> is_document((#[trigger] b[i]).1),
        fields_text(a) + seq!['}'] + after_a == fields_text(b) + seq!['}'] + after_b,
    ensures
        a == b,
        after_a == after_b,
    decreases a,
{
    if a.len() > 0 && b.len() > 0 {
        lemma_fields_split(a, after_a);
        lemma_fields_split(b, after_b);
        let value_a = json_text(a[0].1) + fields_rest(a, after_a);
        let value_b = json_text(b[0].1) + fields_rest(b, after_b);
        assert(seq![':'] + json_text(a[0].1) + fields_rest(a, after_a) =~= seq![':'] + value_a);
        assert(seq![':'] + json_text(b[0].1) + fields_rest(b, after_b) =~= seq![':'] + value_b);
        lemma_same_strings(a[0].0, b[0].0, seq![':'] + value_a, seq![':'] + value_b);
        lemma_same_lengths(seq![':'], seq![':'], value_a, value_b);
        lemma_fields_rest(a, after_a);
        lemma_fields_rest(b, after_b);
        law_json_text_unambiguous(
            a[0].1,
            b[0].1,
            fields_rest(a, after_a),
            fields_rest(b, after_b),
        );
        if a.len() > 1 {
            lemma_same_fields(a.drop_first(), b.drop_first(), after_a, after_b);
        }
        assert(a.drop_first() =~= b.drop_first());
        assert(a =~= seq![a[0]] + a.drop_first());
        assert(b =~= seq![b[0]] + b.drop_first());
    } else {
        if a.len() > 0 {
            lemma_fields_split(a, after_a);
            assert((fields_text(b) + seq!['}'] + after_b)[0] == '}');
        }
        if b.len() > 0 {
            lemma_fields_split(b, after_b);
            assert((fields_text(a) + seq!['}'] + after_a)[0] == '}');
        }
        assert(a =~= b);
        lemma_same_lengths(fields_text(a) + seq!['}'], fields_text(b) + seq!['}'], after_a, after_b);
    }
}

/// A written document can be read in one way only: two documents, each with something behind
/// it that does not go on with a digit, are written alike only where they are the same, and
/// the same stands behind them. No text inside a document can end the string it stands in.
pub proof fn law_json_text_unambiguous(
    a: Json,
    b: Json,
    after_a: Seq<char>,
    after_b: Seq<char>,
)
    requires
        is_document(a),
        is_document(b),
        !starts_with_digit(after_a),
        !starts_with_digit(after_b),
        json_text(a) + after_a == json_text(b) + after_b,
    ensures
        a == b,
        after_a == after_b,
    decreases a,
{
    lemma_first_char(a);
    lemma_first_char(b);
    assert((json_text(a) + after_a)[0] == json_text(a)[0]);
    assert((json_text(b) + after_b)[0] == json_text(b)[0]);
    match (a, b) {
        (Json::Null, Json::Null) => {
            lemma_same_lengths(json_text(a), json_text(b), after_a, after_b);
        },
        (Json::Number(x), Json::Number(y)) => {
            lemma_same_numbers(x, y, after_a, after_b);
        },
        (Json::Text(x), Json::Text(y)) => {
            lemma_same_strings(x, y, after_a, after_b);
        },
        (Json::List(x), Json::List(y)) => {
            assert((json_text(a) + after_a).skip(1) =~= items_text(x) + seq![']'] + after_a);
            assert((json_text(b) + after_b).skip(1) =~= items_text(y) + seq![']'] + after_b);
            lemma_same_items(x, y, after_a, after_b);
        },
        (Json::Object(x), Json::Object(y)) => {
            assert((json_text(a) + after_a).skip(1) =~= fields_text(x) + seq!['}'] + after_a);
            assert((json_text(b) + after_b).skip(1) =~= fields_text(y) + seq!['}'] + after_b);
            lemma_same_fields(x, y, after_a, after_b);
        },
        _ => {
            if a is Number {
                assert(is_digit(a->Number_0[0]));
            }
            if b is Number {
                assert(is_digit(b->Number_0[0]));
            }
        },
    }
}

/// A string, or null where there is no text.
pub open spec fn optional(text: Option<Seq<char>>) -> Json {
    match text {
        Some(text) => Json::Text(text),
        None => Json::Null,
    }
}

/// The texts that strings hold.
pub open spec fn views(strings: Seq<String>) -> Seq<Seq<char>> {
    strings.map_values(|s: String| s@)
}

/// Strings, one for each text.
pub open spec fn strings(texts: Seq<Seq<char>>) -> Seq<Json> {
    texts.map_values(|t: Seq<char>| Json::Text(t))
}

/// What is written of two texts in a row is what is written of the one and of the other.
pub proof fn law_escaped_in_parts(a: Seq<char>, b: Seq<char>)
    ensures
        escaped(a + b) == escaped(a) + escaped(b),
        escaped(Seq::empty()) == Seq::<char>::empty(),
{
    lemma_escaped_concat(a, b);
}

/// A character is written as it stands, unless it is a quotation mark, a backslash or a
/// control character below the space.
pub proof fn law_ordinary_character(c: char)
    requires
        '\u{20}' <= c,
        c != '"',
        c != '\\',
    ensures
        escaped(seq![c]) == seq![c],
{
    lemma_escaped_one(c);
}

/// The characters with an escape of their own.
pub proof fn law_short_escapes()
    ensures
        escaped(seq!['"']) == seq!['\\', '"'],
        escaped(seq!['\\']) == seq!['\\', '\\'],
        escaped(seq!['\u{a}']) == seq!['\\', 'n'],
        escaped(seq!['\u{d}']) == seq!['\\', 'r'],
        escaped(seq!['\u{9}']) == seq!['\\', 't'],
{
    lemma_escaped_one('"');
    lemma_escaped_one('\\');
    lemma_escaped_one('\u{a}');
    lemma_escaped_one('\u{d}');
    lemma_escaped_one('\u{9}');
}

/// Every other control character below the space is written by its number, in four digits
/// of which letters are capital.
pub proof fn law_control_character(c: char)
    requires
        c <= '\u{1f}',
        c != '\u{a}',
        c != '\u{d}',
        c != '\u{9}',
    ensures
        ({
            let n = c as int;
            let high = if n < 16 {
                '0'
            } else {
                '1'
            };
            let low = if n % 16 < 10 {
                ('0' as int + n % 16) as char
            } else {
                ('A' as int + n % 16 - 10) as char
            };
            escaped(seq![c]) == seq!['\\', 'u', '0', '0', high, low]
        }),
{
    reveal_strlit("0123456789ABCDEF");
    lemma_escaped_one(c);
    let n = c as int;
    assert(0 <= n / 16 < 2);
    assert(hex_digit(0) == '0' && hex_digit(1) == '1');
    assert(hex_digit(2) == '2' && hex_digit(3) == '3' && hex_digit(4) == '4' && hex_digit(5)
        == '5' && hex_digit(6) == '6' && hex_digit(7) == '7' && hex_digit(8) == '8' && hex_digit(9)
        == '9' && hex_digit(10) == 'A' && hex_digit(11) == 'B' && hex_digit(12) == 'C'
        && hex_digit(13) == 'D' && hex_digit(14) == 'E' && hex_digit(15) == 'F');
}

/// How null, numbers and strings are written.
pub proof fn law_written_atoms(text: Seq<char>)
    ensures
        json_text(Json::Null) == seq!['n', 'u', 'l', 'l'],
        json_text(Json::Number(text)) == text,
        json_text(Json::Text(text)) == seq!['"'] + escaped(text) + seq!['"'],
        json_text(Json::Verbatim(text)) == seq!['"'] + text + seq!['"'],
{
    reveal_strlit("null");
    assert("null"@ =~= seq!['n', 'u', 'l', 'l']);
}

/// How lists are written: in brackets, the items in order, a comma before each but the first.
pub proof fn law_written_list(items: Seq<Json>, item: Json)
    ensures
        json_text(Json::List(items)) == seq!['['] + items_text(items) + seq![']'],
        items_text(Seq::empty()) == Seq::<char>::empty(),
        items.len() == 0 ==> items_text(items.push(item)) == json_text(item),
        items.len() > 0 ==> items_text(items.push(item)) == items_text(items) + seq![',']
            + json_text(item),
{
    assert(items.push(item).drop_last() =~= items);
}

/// How objects are written: in braces, the fields in order, a comma before each but the first.
pub proof fn law_written_object(fields: Seq<(Seq<char>, Json)>, key: Seq<char>, value: Json)
    ensures
        json_text(Json::Object(fields)) == seq!['{'] + fields_text(fields) + seq!['}'],
        fields_text(Seq::empty()) == Seq::<char>::empty(),
        fields.len() == 0 ==> fields_text(fields.push((key, value))) == seq!['"'] + escaped(key)
            + seq!['"', ':'] + json_text(value),
        fields.len() > 0 ==> fields_text(fields.push((key, value))) == fields_text(fields) + seq![
            ',',
            '"',
        ] + escaped(key) + seq!['"', ':'] + json_text(value),
{
    let next = fields.push((key, value));
    assert(next.drop_last() =~= fields);
    if fields.len() == 0 {
        assert(fields_text(next) =~= seq!['"'] + escaped(key) + seq!['"', ':'] + json_text(value));
    } else {
        assert(fields_text(next) =~= fields_text(fields) + seq![',', '"'] + escaped(key) + seq![
            '"',
            ':',
        ] + json_text(value));
    }
}

/// An absent text is null and a text is a string; a list of texts is a list of strings, one
/// for each.
pub proof fn law_texts_as_values(text: Seq<char>, texts: Seq<Seq<char>>)
    ensures
        optional(None) == Json::Null,
        optional(Some(text)) == Json::Text(text),
        strings(texts).len() == texts.len(),
        forall|i: int| 0 <= i < texts.len() ==> #[trigger] strings(texts)[i] == Json::Text(texts[i]),
{
}

/// Appends what is written of a character inside a JSON string.
fn push_escaped(out: &mut String, c: char)
    ensures
        final(out)@ == old(out)@ + escaped_char(c),
{
    if c == '"' {
        out.push('\\');
        out.push('"');
    } else if c == '\\' {
        out.push('\\');
        out.push('\\');
    } else if c == '\n' {
        out.push('\\');
        out.push('n');
    } else if c == '\r' {
        out.push('\\');
        out.push('r');
    } else if c == '\t' {
        out.push('\\');
        out.push('t');
    } else if c <= '\u{1f}' {
        proof {
            reveal_strlit("0123456789ABCDEF");
        }
        let n: usize = c as usize;
        out.push('\\');
        out.push('u');
        out.push('0');
        out.push('0');
        out.push("0123456789ABCDEF".get_char(n / 16));
        out.push("0123456789ABCDEF".get_char(n % 16));
    } else {
        out.push(c);
    }
    assert(out@ =~= old(out)@ + escaped_char(c));
}

/// Writes a text the way it stands inside a JSON string.
pub fn escape_json(input: &str) -> (out: String)
    ensures
        out@ == escaped(input@),
{
    let mut out = String::new();
    for c in it: input.chars()
        invariant
            it.seq() == input@,
            out@ == escaped(it.seq().take(it.index() as int)),
    {
        let ghost read = it.seq().take(it.index() as int);
        push_escaped(&mut out, c);
        assert(it.seq().take(it.index() as int + 1).drop_last() =~= read);
    }
    assert(input@.take(input@.len() as int) =~= input@);
    out
}

/// Appends a text between quotation marks, written the way it stands inside a JSON string.
fn push_string(out: &mut String, text: &str)
    ensures
        final(out)@ == old(out)@ + json_text(Json::Text(text@)),
{
    out.push('"');
    out.append(escape_json(text).as_str());
    out.push('"');
    assert(out@ =~= old(out)@ + in_quotes(escaped(text@)));
}

/// Writes a list of strings, without the brackets round it.
pub fn quote_list(items: &[String]) -> (out: String)
    ensures
        out@ == items_text(strings(views(items@))),
{
    let mut out = String::new();
    let ghost values = strings(views(items@));
    let mut i: usize = 0;
    while i < items.len()
        invariant
            i <= items@.len(),
            values == strings(views(items@)),
            out@ == items_text(values.take(i as int)),
        decreases items@.len() - i,
    {
        if i > 0 {
            out.push(',');
        }
        push_string(&mut out, items[i].as_str());
        proof {
            let next = values.take(i + 1);
            assert(next.drop_last() =~= values.take(i as int));
            assert(next[i as int] == Json::Text(items@[i as int]@));
            if i > 0 {
                assert(out@ =~= items_text(values.take(i as int)) + seq![','] + json_text(
                    next[i as int],
                ));
            } else {
                assert(out@ =~= json_text(next[0]));
            }
        }
        i += 1;
    }
    assert(values.take(items@.len() as int) =~= values);
    out
}

/// Writes a string, or null where there is none.
pub fn quote_opt(value: Option<&str>) -> (out: String)
    ensures
        out@ == json_text(
            optional(
                match value {
                    Some(text) => Some(text@),
                    None => None,
                },
            ),
        ),
        value is None ==> out@ == "null"@,
        value is Some ==> out@ == seq!['"'] + escaped(value->0@) + seq!['"'],
{
    match value {
        Some(text) => {
            let mut out = String::new();
            push_string(&mut out, text);
            assert(out@ =~= json_text(Json::Text(text@)));
            out
        },
        None => "null".to_string(),
    }
}

/// Writes a string.
pub(crate) fn string_text(text: &str) -> (out: String)
    ensures
        out@ == json_text(Json::Text(text@)),
{
    let mut out = String::new();
    push_string(&mut out, text);
    assert(out@ =~= json_text(Json::Text(text@)));
    out
}

/// Writes a list, whose items have been written, with the brackets round it.
pub(crate) fn list_text(items_text: &str, Ghost(items): Ghost<Seq<Json>>) -> (out: String)
    requires
        items_text@ == crate::json::items_text(items),
    ensures
        out@ == json_text(Json::List(items)),
{
    let mut out = String::new();
    out.push('[');
    out.append(items_text);
    out.push(']');
    assert(out@ =~= json_text(Json::List(items)));
    out
}

/// Writes a list of one string.
pub(crate) fn single_text(text: &str) -> (out: String)
    ensures
        out@ == json_text(Json::List(seq![Json::Text(text@)])),
{
    let ghost items = seq![Json::Text(text@)];
    list_text(string_text(text).as_str(), Ghost(items))
}

/// Writes an object, whose fields have been written, with the braces round it.
pub(crate) fn object_text(
    fields_text: &str,
    Ghost(fields): Ghost<Seq<(Seq<char>, Json)>>,
) -> (out: String)
    requires
        fields_text@ == crate::json::fields_text(fields),
    ensures
        out@ == json_text(Json::Object(fields)),
{
    let mut out = String::new();
    out.push('{');
    out.append(fields_text);
    out.push('}');
    assert(out@ =~= json_text(Json::Object(fields)));
    out
}

/// Appends a value to the written items of a list.
pub(crate) fn push_item(
    out: &mut String,
    value_text: &str,
    first: bool,
    Ghost(items): Ghost<Seq<Json>>,
    Ghost(value): Ghost<Json>,
) -> (next: Ghost<Seq<Json>>)
    requires
        old(out)@ == items_text(items),
        value_text@ == json_text(value),
        first == (items.len() == 0),
    ensures
        next@ == items.push(value),
        final(out)@ == items_text(next@),
{
    if !first {
        out.push(',');
    }
    out.append(value_text);
    proof {
        assert(items.push(value).drop_last() =~= items);
        if first {
            assert(out@ =~= json_text(value));
        } else {
            assert(out@ =~= items_text(items) + seq![','] + json_text(value));
        }
    }
    Ghost(items.push(value))
}

/// Appends a field to the written fields of an object.
pub(crate) fn push_field(
    out: &mut String,
    key: &str,
    value_text: &str,
    Ghost(fields): Ghost<Seq<(Seq<char>, Json)>>,
    Ghost(value): Ghost<Json>,
) -> (next: Ghost<Seq<(Seq<char>, Json)>>)
    requires
        old(out)@ == fields_text(fields),
        value_text@ == json_text(value),
    ensures
        next@ == fields.push((key@, value)),
        final(out)@ == fields_text(next@),
{
    assert(fields.len() > 0 ==> fields_text(fields).len() > 0);
    if !out.as_str().is_empty() {
        out.push(',');
    }
    push_string(out, key);
    out.push(':');
    out.append(value_text);
    proof {
        assert(fields.push((key@, value)).drop_last() =~= fields);
        if fields.len() > 0 {
            assert(out@ =~= fields_text(fields) + seq![','] + in_quotes(escaped(key@)) + seq![':']
                + json_text(value));
        } else {
            assert(out@ =~= in_quotes(escaped(key@)) + seq![':'] + json_text(value));
        }
    }
    Ghost(fields.push((key@, value)))
}

} // verus!
