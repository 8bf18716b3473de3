//! The list of paths as the settings store prints it: a bracketed list of
//! quoted strings, such as `['~/work', '/srv/data']`.

use vstd::prelude::*;

verus! {

/// White space, as Unicode defines it.
pub open spec fn is_space(c: char) -> bool {
    let code = c as u32;
    ||| 0x09 <= code <= 0x0d
    ||| code == 0x20
    ||| code == 0x85
    ||| code == 0xa0
    ||| code == 0x1680
    ||| 0x2000 <= code <= 0x200a
    ||| code == 0x2028
    ||| code == 0x2029
    ||| code == 0x202f
    ||| code == 0x205f
    ||| code == 0x3000
}

/// The text without the white space at its two ends.
pub open spec fn trimmed(text: Seq<char>) -> Seq<char>
    decreases text.len(),
{
    if text.len() > 0 && is_space(text[0]) {
        trimmed(text.drop_first())
    } else if text.len() > 0 && is_space(text.last()) {
        trimmed(text.drop_last())
    } else {
        text
    }
}

/// The pieces of the text between its commas. A text without a comma is one
/// piece, and so is the empty text.
pub open spec fn split_commas(text: Seq<char>) -> Seq<Seq<char>>
    decreases text.len(),
{
    if text.len() == 0 {
        seq![Seq::empty()]
    } else {
        let before = split_commas(text.drop_last());
        if text.last() == ',' {
            before.push(Seq::empty())
        } else {
            before.drop_last().push(before.last().push(text.last()))
        }
    }
}

/// What stands between the quotes of an item, where the item is quoted.
pub open spec fn unquoted(item: Seq<char>) -> Option<Seq<char>> {
    if item.len() >= 2 && item[0] == '\'' && item.last() == '\'' {
        Some(item.subrange(1, item.len() - 1))
    } else {
        None
    }
}

/// The quoted ones among the pieces, each trimmed and without its quotes.
pub open spec fn quoted_items(pieces: Seq<Seq<char>>) -> Seq<Seq<char>>
    decreases pieces.len(),
{
    if pieces.len() == 0 {
        Seq::empty()
    } else {
        let before = quoted_items(pieces.drop_last());
        match unquoted(trimmed(pieces.last())) {
            Some(item) => before.push(item),
            None => before,
        }
    }
}

/// The items of a printed list: what stands in quotes between the commas of
/// a text in square brackets. Any other text holds no item.
pub open spec fn list_items(text: Seq<char>) -> Seq<Seq<char>> {
    let list = trimmed(text);
    if list.len() >= 2 && list[0] == '[' && list.last() == ']' {
        quoted_items(split_commas(list.subrange(1, list.len() - 1)))
    } else {
        Seq::empty()
    }
}

/// What expanding a leading tilde may make of `item`: an item that starts
/// with no tilde stays as it is, and of any other at least what follows the
/// tilde stays.
pub open spec fn is_expansion_of(expanded: Seq<char>, item: Seq<char>) -> bool {
    if item.len() > 0 && item[0] == '~' {
        item.skip(1).is_suffix_of(expanded)
    } else {
        expanded == item
    }
}

/// The views of a list of strings.
pub open spec fn string_views(strings: Seq<String>) -> Seq<Seq<char>> {
    Seq::new(strings.len(), |i: int| strings[i]@)
}

/// A range of a text with nothing but white space outside it, and none at
/// its own two ends, is the trimmed text.
pub proof fn lemma_trimmed_range(text: Seq<char>, from: int, to: int)
    requires
        0 <= from <= to <= text.len(),
        forall|k: int| 0 <= k < from ==> is_space(#[trigger] text[k]),
        forall|k: int| to <= k < text.len() ==> is_space(#[trigger] text[k]),
        from < to ==> !is_space(text[from]) && !is_space(text[to - 1]),
    ensures
        trimmed(text) == text.subrange(from, to),
    decreases text.len(),
{
    if text.len() == 0 {
        assert(text.subrange(from, to) =~= text);
    } else if is_space(text[0]) {
        let rest = text.drop_first();
        if from > 0 {
            assert forall|k: int| 0 <= k < from - 1 implies is_space(#[trigger] rest[k]) by {
                assert(rest[k] == text[k + 1]);
            }
            assert forall|k: int| to - 1 <= k < rest.len() implies is_space(#[trigger] rest[k]) by {
                assert(rest[k] == text[k + 1]);
            }
            lemma_trimmed_range(rest, from - 1, to - 1);
            assert(rest.subrange(from - 1, to - 1) =~= text.subrange(from, to));
        } else {
            assert(to == 0);
            assert forall|k: int| 0 <= k < rest.len() implies is_space(#[trigger] rest[k]) by {
                assert(rest[k] == text[k + 1]);
            }
            lemma_trimmed_range(rest, 0, 0);
            assert(rest.subrange(0, 0) =~= text.subrange(0, 0));
        }
    } else if is_space(text.last()) {
        let rest = text.drop_last();
        assert(from == 0);
        assert(to < text.len());
        assert forall|k: int| to <= k < rest.len() implies is_space(#[trigger] rest[k]) by {
            assert(rest[k] == text[k]);
        }
        lemma_trimmed_range(rest, from, to);
        assert(rest.subrange(from, to) =~= text.subrange(from, to));
    } else {
        assert(text.subrange(from, to) =~= text);
    }
}

/// Whether `c` is white space.
pub fn is_whitespace(c: char) -> (yes: bool)
    ensures
        yes == is_space(c),
{
    let code: u32 = c as u32;
    (0x09 <= code && code <= 0x0d) || code == 0x20 || code == 0x85 || code == 0xa0 || code
        == 0x1680 || (0x2000 <= code && code <= 0x200a) || code == 0x2028 || code == 0x2029
        || code == 0x202f || code == 0x205f || code == 0x3000
}

/// The characters of a string.
pub fn chars_of(text: &str) -> (chars: Vec<char>)
    ensures
        chars@ == text@,
{
    let count = text.unicode_len();
    let mut chars: Vec<char> = Vec::new();
    let mut i: usize = 0;
    while i < count
        invariant
            i <= count,
            count == text@.len(),
            chars@ == text@.take(i as int),
        decreases count - i,
    {
        chars.push(text.get_char(i));
        assert(text@.take(i + 1) =~= text@.take(i as int).push(text@[i as int]));
        i += 1;
    }
    assert(text@.take(count as int) =~= text@);
    chars
}

/// The range of `chars[from..to]` that is left when the white space at its
/// two ends is taken away.
fn trim_range(chars: &Vec<char>, from: usize, to: usize) -> (range: (usize, usize))
    requires
        from <= to <= chars.len(),
    ensures
        from <= range.0 <= range.1 <= to,
        chars@.subrange(range.0 as int, range.1 as int) == trimmed(
            chars@.subrange(from as int, to as int),
        ),
{
    let ghost piece = chars@.subrange(from as int, to as int);
    let mut start: usize = from;
    while start < to && is_whitespace(chars[start])
        invariant
            from <= start <= to <= chars.len(),
            forall|k: int| from <= k < start ==> is_space(#[trigger] chars@[k]),
        decreases to - start,
    {
        start += 1;
    }
    let mut end: usize = to;
    while end > start && is_whitespace(chars[end - 1])
        invariant
            start <= end <= to <= chars.len(),
            forall|k: int| end <= k < to ==> is_space(#[trigger] chars@[k]),
        decreases end,
    {
        end -= 1;
    }
    proof {
        assert forall|k: int| 0 <= k < start - from implies is_space(#[trigger] piece[k]) by {
            assert(piece[k] == chars@[from + k]);
        }
        assert forall|k: int| end - from <= k < piece.len() implies is_space(
            #[trigger] piece[k],
        ) by {
            assert(piece[k] == chars@[from + k]);
        }
        lemma_trimmed_range(piece, start - from, end - from);
        assert(piece.subrange(start - from, end - from) =~= chars@.subrange(
            start as int,
            end as int,
        ));
    }
    (start, end)
}

/// Adds the item in `chars[from..to]` to `items`, where it is quoted.
fn push_item(text: &str, chars: &Vec<char>, from: usize, to: usize, items: &mut Vec<String>)
    requires
        chars@ == text@,
        from <= to <= chars.len(),
    ensures
        string_views(final(items)@) == match unquoted(
            trimmed(chars@.subrange(from as int, to as int)),
        ) {
            Some(item) => string_views(old(items)@).push(item),
            None => string_views(old(items)@),
        },
{
    let (start, end) = trim_range(chars, from, to);
    let ghost item = chars@.subrange(start as int, end as int);
    if end - start >= 2 && chars[start] == '\'' && chars[end - 1] == '\'' {
        assert(item[0] == chars@[start as int]);
        assert(item.last() == chars@[end - 1]);
        let inner = text.substring_char(start + 1, end - 1);
        assert(inner@ =~= item.subrange(1, item.len() - 1));
        let ghost before = string_views(items@);
        items.push(String::from_str(inner));
        assert(string_views(items@) =~= before.push(inner@));
    } else {
        if end - start >= 2 {
            assert(item[0] == chars@[start as int]);
            assert(item.last() == chars@[end - 1]);
        }
    }
}

/// The items of the list that `text` prints, in their order.
pub fn dconf_items(text: &str) -> (items: Vec<String>)
    ensures
        string_views(items@) == list_items(text@),
{
    let chars = chars_of(text);
    let mut items: Vec<String> = Vec::new();
    assert(string_views(items@) =~= Seq::<Seq<char>>::empty());
    let (open, close) = trim_range(&chars, 0, chars.len());
    assert(chars@.subrange(0, chars.len() as int) =~= chars@);
    let ghost list = chars@.subrange(open as int, close as int);
    if close - open >= 2 {
        assert(list[0] == chars@[open as int]);
        assert(list.last() == chars@[close - 1]);
    }
    if !(close - open >= 2 && chars[open] == '[' && chars[close - 1] == ']') {
        return items;
    }
    let first: usize = open + 1;
    let last: usize = close - 1;
    let ghost inner = list.subrange(1, list.len() - 1);
    assert(inner =~= chars@.subrange(first as int, last as int));
    let mut start: usize = first;
    let mut i: usize = first;
    assert(inner.take(0) =~= Seq::<char>::empty());
    assert(split_commas(inner.take(0)).drop_last() =~= Seq::<Seq<char>>::empty());
    assert(chars@.subrange(first as int, first as int) =~= Seq::<char>::empty());
    while i < last
        invariant
            first <= start <= i <= last <= chars.len(),
            chars@ == text@,
            inner == chars@.subrange(first as int, last as int),
            split_commas(inner.take(i - first)).last() == chars@.subrange(start as int, i as int),
            string_views(items@) == quoted_items(split_commas(inner.take(i - first)).drop_last()),
        decreases last - i,
    {
        let ghost seen = inner.take(i - first);
        let ghost next = inner.take(i - first + 1);
        let ghost pieces = split_commas(seen);
        assert(next.drop_last() =~= seen);
        assert(next.last() == chars@[i as int]);
        if chars[i] == ',' {
            push_item(text, &chars, start, i, &mut items);
            assert(split_commas(next).drop_last() =~= pieces);
            assert(pieces.drop_last().push(pieces.last()) =~= pieces);
            start = i + 1;
            assert(chars@.subrange(start as int, start as int) =~= Seq::<char>::empty());
        } else {
            assert(split_commas(next).drop_last() =~= pieces.drop_last());
            assert(chars@.subrange(start as int, i + 1) =~= chars@.subrange(
                start as int,
                i as int,
            ).push(chars@[i as int]));
        }
        i += 1;
    }
    assert(inner.take(last - first) =~= inner);
    let ghost pieces = split_commas(inner);
    push_item(text, &chars, start, last, &mut items);
    assert(pieces.drop_last().push(pieces.last()) =~= pieces);
    items
}

/// `shellexpand::tilde`: puts the home directory in the place of a leading
/// tilde. Which directory that is, and whether there is one, depends on the
/// environment, so only this is trusted: a text without a leading tilde comes
/// back as it is, and of any other at least what follows the tilde.
#[verifier::external_body]
fn expand_tilde(item: &str) -> (expanded: String)
    ensures
        is_expansion_of(expanded@, item@),
{
    shellexpand::tilde(item).into_owned()
}

/// The paths of a printed list, each with a leading tilde expanded.
pub fn parse_dconf_list(output: &str) -> (paths: Vec<String>)
    ensures
        paths@.len() == list_items(output@).len(),
        forall|i: int|
            0 <= i < paths@.len() ==> is_expansion_of(
                #[trigger] paths@[i]@,
                list_items(output@)[i],
            ),
{
    let items = dconf_items(output);
    let mut paths: Vec<String> = Vec::new();
    let mut i: usize = 0;
    while i < items.len()
        invariant
            i <= items.len(),
            paths@.len() == i,
            string_views(items@) == list_items(output@),
            forall|k: int|
                0 <= k < i ==> is_expansion_of(#[trigger] paths@[k]@, list_items(output@)[k]),
        decreases items.len() - i,
    {
        assert(string_views(items@)[i as int] == items@[i as int]@);
        paths.push(expand_tilde(items[i].as_str()));
        i += 1;
    }
    assert(string_views(items@).len() == items@.len());
    paths
}

} // verus!
