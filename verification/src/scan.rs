//! Searching and reading raw manifest bytes.

use vstd::prelude::*;
use vstd::utf8::{encode_utf8, is_ascii_chars, is_ascii_chars_encode_utf8};

verus! {

/// The double quotation mark.
pub const QUOTE: u8 = 0x22;

/// The bytes of a text in UTF-8.
pub open spec fn lit(text: &str) -> Seq<u8> {
    encode_utf8(text@)
}

/// An ASCII text has one byte per character.
pub(crate) proof fn lemma_lit_ascii(text: &str)
    requires
        is_ascii_chars(text@),
    ensures
        lit(text).len() == text@.len(),
        forall|i: int| 0 <= i < text@.len() ==> #[trigger] lit(text)[i] == text@[i] as u8,
{
    is_ascii_chars_encode_utf8(text@);
}

/// `needle` stands in `haystack` at `pos`.
pub open spec fn occurs_at(haystack: Seq<u8>, pos: int, needle: Seq<u8>) -> bool {
    &&& 0 <= pos
    &&& pos + needle.len() <= haystack.len()
    &&& haystack.subrange(pos, pos + needle.len()) == needle
}

/// Where the first occurrence of a non-empty `needle` at or after `from` begins.
pub open spec fn first_occurrence(haystack: Seq<u8>, from: int, needle: Seq<u8>) -> Option<int>
    decreases haystack.len() - from,
{
    if needle.len() == 0 || from < 0 || from + needle.len() > haystack.len() {
        None
    } else if occurs_at(haystack, from, needle) {
        Some(from)
    } else {
        first_occurrence(haystack, from + 1, needle)
    }
}

/// The first occurrence is an occurrence, nothing before it is one, and where there is no
/// first occurrence there is none at all.
pub proof fn law_first_occurrence_is_least(haystack: Seq<u8>, from: int, needle: Seq<u8>)
    requires
        0 <= from,
        needle.len() > 0,
    ensures
        match first_occurrence(haystack, from, needle) {
            Some(found) => {
                &&& from <= found
                &&& occurs_at(haystack, found, needle)
                &&& forall|i: int| from <= i < found ==> !#[trigger] occurs_at(haystack, i, needle)
            },
            None => forall|i: int| from <= i ==> !#[trigger] occurs_at(haystack, i, needle),
        },
    decreases haystack.len() - from,
{
    if from + needle.len() <= haystack.len() && !occurs_at(haystack, from, needle) {
        law_first_occurrence_is_least(haystack, from + 1, needle);
    }
}

/// A needle stands where it was put, and stands there only where the bytes are its own.
pub proof fn law_occurs_where_put(before: Seq<u8>, middle: Seq<u8>, after: Seq<u8>, needle: Seq<u8>)
    requires
        middle.len() == needle.len(),
    ensures
        occurs_at(before + middle + after, before.len() as int, needle) <==> middle == needle,
{
    let whole = before + middle + after;
    assert(whole.subrange(before.len() as int, (before.len() + middle.len()) as int) =~= middle);
}

/// A needle does not stand where fewer bytes are left than it has.
pub proof fn law_occurs_inside(haystack: Seq<u8>, pos: int, needle: Seq<u8>)
    requires
        occurs_at(haystack, pos, needle),
    ensures
        0 <= pos <= haystack.len() - needle.len(),
{
}

/// A search finds a needle in a text that is made of something, the needle and something
/// else, where the needle does not stand earlier.
pub proof fn law_search_finds(before: Seq<u8>, needle: Seq<u8>, after: Seq<u8>, from: int)
    requires
        0 <= from <= before.len(),
        needle.len() > 0,
        forall|i: int|
            from <= i < before.len() ==> #[trigger] (before + needle + after).subrange(
                i,
                i + needle.len(),
            ) != needle,
    ensures
        first_occurrence(before + needle + after, from, needle) == Some(before.len() as int),
{
    let whole = before + needle + after;
    law_occurs_where_put(before, needle, after, needle);
    lemma_first_occurrence_at(whole, from, needle, before.len() as int);
}

/// A position with no occurrence before it, from `from` on, and one at it is the first.
pub(crate) proof fn lemma_first_occurrence_at(haystack: Seq<u8>, from: int, needle: Seq<u8>, found: int)
    requires
        0 <= from <= found,
        needle.len() > 0,
        occurs_at(haystack, found, needle),
        forall|i: int| from <= i < found ==> !#[trigger] occurs_at(haystack, i, needle),
    ensures
        first_occurrence(haystack, from, needle) == Some(found),
{
    law_first_occurrence_is_least(haystack, from, needle);
}

/// Searching from a later start finds the same place while that place is not passed.
pub(crate) proof fn lemma_first_occurrence_skip(haystack: Seq<u8>, from: int, to: int, needle: Seq<u8>)
    requires
        0 <= from <= to,
        needle.len() > 0,
        forall|i: int| from <= i < to ==> !#[trigger] occurs_at(haystack, i, needle),
    ensures
        first_occurrence(haystack, from, needle) == first_occurrence(haystack, to, needle),
{
    law_first_occurrence_is_least(haystack, from, needle);
    law_first_occurrence_is_least(haystack, to, needle);
    match first_occurrence(haystack, from, needle) {
        Some(found) => {
            lemma_first_occurrence_at(haystack, to, needle, found);
        },
        None => {},
    }
}

/// An occurrence fixes every byte under it.
pub(crate) proof fn lemma_occurs_byte(haystack: Seq<u8>, pos: int, needle: Seq<u8>, k: int)
    requires
        occurs_at(haystack, pos, needle),
        0 <= k < needle.len(),
    ensures
        haystack[pos + k] == needle[k],
{
    assert(haystack.subrange(pos, pos + needle.len())[k] == haystack[pos + k]);
}

/// Space, tab, line feed or carriage return.
pub open spec fn is_blank(byte: u8) -> bool {
    byte == 0x20 || byte == 0x09 || byte == 0x0a || byte == 0x0d
}

/// The first position at or after `pos` that holds no blank byte.
pub open spec fn blanks_end(data: Seq<u8>, pos: int) -> int
    decreases data.len() - pos,
{
    if 0 <= pos < data.len() && is_blank(data[pos]) {
        blanks_end(data, pos + 1)
    } else {
        pos
    }
}

/// The end of a quoted run that begins at `start`: the next quotation mark, or the end of
/// the data where none follows.
pub open spec fn quote_end(data: Seq<u8>, start: int) -> int
    decreases data.len() - start,
{
    if 0 <= start < data.len() && data[start] != QUOTE {
        quote_end(data, start + 1)
    } else {
        start
    }
}

/// What stands between the quotation mark at `pos` and the next one; nothing where `pos`
/// holds no quotation mark.
pub open spec fn quoted(data: Seq<u8>, pos: int) -> Seq<u8> {
    if 0 <= pos < data.len() && data[pos] == QUOTE {
        data.subrange(pos + 1, quote_end(data, pos + 1))
    } else {
        Seq::empty()
    }
}

/// A quoted run ends inside the data, and holds no quotation mark.
pub(crate) proof fn lemma_quote_end(data: Seq<u8>, start: int)
    requires
        0 <= start <= data.len(),
    ensures
        start <= quote_end(data, start) <= data.len(),
        forall|i: int| start <= i < quote_end(data, start) ==> #[trigger] data[i] != QUOTE,
        quote_end(data, start) < data.len() ==> data[quote_end(data, start)] == QUOTE,
    decreases data.len() - start,
{
    if start < data.len() && data[start] != QUOTE {
        lemma_quote_end(data, start + 1);
    }
}

/// A quoted value never holds a quotation mark.
pub proof fn law_quoted_holds_no_quote(data: Seq<u8>, pos: int)
    ensures
        forall|i: int| 0 <= i < quoted(data, pos).len() ==> #[trigger] quoted(data, pos)[i] != QUOTE,
{
    if 0 <= pos < data.len() && data[pos] == QUOTE {
        lemma_quote_end(data, pos + 1);
        assert forall|i: int| 0 <= i < quoted(data, pos).len() implies #[trigger] quoted(
            data,
            pos,
        )[i] != QUOTE by {
            assert(quoted(data, pos)[i] == data[pos + 1 + i]);
        }
    }
}

/// A quotation mark opens a value that runs to the next one, or to the end of the data.
pub proof fn law_quoted_value(data: Seq<u8>, open: int, close: int)
    requires
        0 <= open < close <= data.len(),
        data[open] == 0x22,
        forall|i: int| open < i < close ==> #[trigger] data[i] != 0x22,
        close < data.len() ==> data[close] == 0x22,
    ensures
        quoted(data, open) == data.subrange(open + 1, close),
{
    lemma_quote_end(data, open + 1);
    if quote_end(data, open + 1) < close {
        assert(data[quote_end(data, open + 1)] != 0x22);
    } else if close < quote_end(data, open + 1) {
        assert(data[close] != 0x22);
    }
}

/// Where no quotation mark stands, no value is read.
pub proof fn law_nothing_quoted(data: Seq<u8>, pos: int)
    requires
        pos < 0 || pos >= data.len() || data[pos] != 0x22,
    ensures
        quoted(data, pos) == Seq::<u8>::empty(),
{
}

/// Spaces, tabs, line feeds and carriage returns are passed over, and nothing else is.
pub proof fn law_blanks_end(data: Seq<u8>, pos: int, end: int)
    requires
        0 <= pos <= end <= data.len(),
        forall|i: int|
            pos <= i < end ==> #[trigger] data[i] == 0x20 || data[i] == 0x09 || data[i] == 0x0a
                || data[i] == 0x0d,
        end < data.len() ==> data[end] != 0x20 && data[end] != 0x09 && data[end] != 0x0a
            && data[end] != 0x0d,
    ensures
        blanks_end(data, pos) == end,
    decreases end - pos,
{
    if pos < end {
        assert(is_blank(data[pos]));
        law_blanks_end(data, pos + 1, end);
    }
}

/// Whether two byte strings are equal.
pub fn bytes_eq(a: &[u8], b: &[u8]) -> (equal: bool)
    ensures
        equal == (a@ == b@),
{
    if a.len() != b.len() {
        return false;
    }
    let mut i: usize = 0;
    while i < a.len()
        invariant
            i <= a@.len(),
            a@.len() == b@.len(),
            forall|k: int| 0 <= k < i ==> a@[k] == b@[k],
        decreases a@.len() - i,
    {
        if a[i] != b[i] {
            return false;
        }
        i += 1;
    }
    assert(a@ =~= b@);
    true
}

/// Whether `needle` stands in `haystack` at `pos`.
pub fn starts_with_at(haystack: &[u8], pos: usize, needle: &[u8]) -> (found: bool)
    requires
        pos + needle@.len() <= usize::MAX,
    ensures
        found == occurs_at(haystack@, pos as int, needle@),
        found <==> pos + needle@.len() <= haystack@.len() && haystack@.subrange(
            pos as int,
            pos + needle@.len(),
        ) == needle@,
{
    let end: usize = pos + needle.len();
    end <= haystack.len() && bytes_eq(&haystack[pos..end], needle)
}

/// Finds the first occurrence of `needle` at or after `from`; an empty `needle` is never found.
pub fn find_from(haystack: &[u8], from: usize, needle: &[u8]) -> (found: Option<usize>)
    ensures
        match found {
            Some(at) => first_occurrence(haystack@, from as int, needle@) == Some(at as int),
            None => first_occurrence(haystack@, from as int, needle@) is None,
        },
        found is Some ==> from <= found->0 && found->0 + needle@.len() <= haystack.len(),
        match found {
            Some(at) => {
                &&& needle@.len() > 0
                &&& haystack@.subrange(at as int, at + needle@.len()) == needle@
                &&& forall|i: int|
                    from <= i < at ==> #[trigger] haystack@.subrange(i, i + needle@.len())
                        != needle@
            },
            None => needle@.len() == 0 || forall|i: int|
                from <= i && i + needle@.len() <= haystack@.len()
                    ==> #[trigger] haystack@.subrange(i, i + needle@.len()) != needle@,
        },
{
    if needle.is_empty() || from > haystack.len() || needle.len() > haystack.len() - from {
        return None;
    }
    let limit: usize = haystack.len() - needle.len();
    let mut i: usize = from;
    while i <= limit
        invariant
            from <= i <= limit + 1,
            limit + needle@.len() == haystack.len(),
            needle@.len() > 0,
            forall|k: int| from <= k < i ==> !#[trigger] occurs_at(haystack@, k, needle@),
        decreases limit + 1 - i,
    {
        if starts_with_at(haystack, i, needle) {
            proof {
                lemma_first_occurrence_at(haystack@, from as int, needle@, i as int);
                assert forall|k: int| from <= k < i implies #[trigger] haystack@.subrange(
                    k,
                    k + needle@.len(),
                ) != needle@ by {
                    assert(!occurs_at(haystack@, k, needle@));
                }
            }
            return Some(i);
        }
        i += 1;
    }
    proof {
        lemma_first_occurrence_skip(haystack@, from as int, limit + 1, needle@);
        assert forall|k: int|
            from <= k && k + needle@.len() <= haystack@.len() implies #[trigger] haystack@.subrange(
            k,
            k + needle@.len(),
        ) != needle@ by {
            assert(!occurs_at(haystack@, k, needle@));
        }
    }
    None
}

/// Skips blank bytes from `pos` on.
pub fn skip_ws(data: &[u8], pos: usize) -> (end: usize)
    ensures
        end == blanks_end(data@, pos as int),
        pos <= end,
        end <= data@.len() || end == pos,
        forall|i: int| pos <= i < end ==> is_blank(#[trigger] data@[i]),
        end < data@.len() ==> !is_blank(data@[end as int]),
        forall|i: int|
            pos <= i < end ==> #[trigger] data@[i] == 0x20 || data@[i] == 0x09 || data@[i] == 0x0a
                || data@[i] == 0x0d,
        end < data@.len() ==> data@[end as int] != 0x20 && data@[end as int] != 0x09 && data@[end as int]
            != 0x0a && data@[end as int] != 0x0d,
{
    let mut at: usize = pos;
    while at < data.len() && (data[at] == 0x20 || data[at] == 0x09 || data[at] == 0x0a || data[at]
        == 0x0d)
        invariant
            pos <= at,
            at <= data@.len() || at == pos,
            blanks_end(data@, pos as int) == blanks_end(data@, at as int),
            forall|i: int| pos <= i < at ==> is_blank(#[trigger] data@[i]),
        decreases data@.len() - at,
    {
        at += 1;
    }
    at
}

/// Reads the value between the quotation mark at `pos` and the next one.
pub fn read_quoted<'a>(data: &'a [u8], pos: usize) -> (value: &'a [u8])
    ensures
        value@ == quoted(data@, pos as int),
        pos >= data@.len() || data@[pos as int] != 0x22 ==> value@.len() == 0,
        pos < data@.len() && data@[pos as int] == 0x22 ==> {
            &&& pos + 1 + value@.len() <= data@.len()
            &&& value@ == data@.subrange(pos + 1, pos + 1 + value@.len())
            &&& forall|i: int| 0 <= i < value@.len() ==> #[trigger] value@[i] != 0x22
            &&& pos + 1 + value@.len() < data@.len() ==> data@[pos + 1 + value@.len()] == 0x22
        },
{
    if pos >= data.len() || data[pos] != QUOTE {
        return &data[0..0];
    }
    let start: usize = pos + 1;
    let mut end: usize = start;
    while end < data.len() && data[end] != QUOTE
        invariant
            start <= end <= data@.len(),
            quote_end(data@, start as int) == quote_end(data@, end as int),
            forall|i: int| start <= i < end ==> #[trigger] data@[i] != QUOTE,
        decreases data@.len() - end,
    {
        end += 1;
    }
    &data[start..end]
}

} // verus!
