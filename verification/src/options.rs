//! Encoder options written as `key=value` pairs with commas between them.

use vstd::prelude::*;

verus! {

/// The options that the encoders are opened with.
pub const DEFAULT_X264_OPTS: &'static str = "preset=veryslow,crf=18,vpre=fast";

/// What lies between the separators of `s`, in order. A text without a
/// separator is one piece, and so is the empty text.
pub open spec fn split(s: Seq<char>, separator: char) -> Seq<Seq<char>>
    decreases s.len(),
{
    if s.len() == 0 {
        seq![Seq::empty()]
    } else {
        let before = split(s.drop_last(), separator);
        if s.last() == separator {
            before.push(Seq::empty())
        } else {
            before.drop_last().push(before.last().push(s.last()))
        }
    }
}

/// The items of an option text: its pieces between commas, without the last one
/// where that is empty, so that a comma may also close the text.
pub open spec fn items(s: Seq<char>) -> Seq<Seq<char>> {
    let pieces = split(s, ',');
    if pieces.last().len() == 0 {
        pieces.drop_last()
    } else {
        pieces
    }
}

/// An item that is a key and a value with one `=` between them.
pub open spec fn is_pair(item: Seq<char>) -> bool {
    split(item, '=').len() == 2
}

/// The key and the value of an item.
pub open spec fn pair(item: Seq<char>) -> (Seq<char>, Seq<char>) {
    (split(item, '=')[0], split(item, '=')[1])
}

/// The pairs that an option text stands for, in the order in which they are
/// written; none where an item is not a key and a value.
pub open spec fn parsed(s: Seq<char>) -> Option<Seq<(Seq<char>, Seq<char>)>> {
    if forall|i: int| 0 <= i < items(s).len() ==> is_pair(#[trigger] items(s)[i]) {
        Some(items(s).map_values(|item: Seq<char>| pair(item)))
    } else {
        None
    }
}

/// The texts of some string slices.
pub open spec fn texts(pieces: Seq<&str>) -> Seq<Seq<char>> {
    pieces.map_values(|piece: &str| piece@)
}

/// The texts of some pairs of strings.
pub open spec fn pair_texts(pairs: Seq<(String, String)>) -> Seq<(Seq<char>, Seq<char>)> {
    pairs.map_values(|entry: (String, String)| (entry.0@, entry.1@))
}

/// Splits `s` at each `separator`.
fn split_text<'a>(s: &'a str, separator: char) -> (pieces: Vec<&'a str>)
    ensures
        texts(pieces@) == split(s@, separator),
{
    let len: usize = s.unicode_len();
    let mut pieces: Vec<&'a str> = Vec::new();
    let mut start: usize = 0;
    let mut i: usize = 0;
    assert(s@.take(0) =~= Seq::empty());
    assert(texts(pieces@).push(s@.subrange(0, 0)) =~~= seq![Seq::empty()]);
    for c in chars: s.chars()
        invariant
            chars.seq() == s@,
            i == chars.index(),
            start <= i <= len,
            len == s@.len(),
            split(s@.take(i as int), separator) == texts(pieces@).push(
                s@.subrange(start as int, i as int),
            ),
    {
        let ghost done = texts(pieces@);
        let ghost piece = s@.subrange(start as int, i as int);
        assert(s@.take(i + 1).drop_last() =~= s@.take(i as int));
        assert(done.push(piece).drop_last() =~= done);
        if c == separator {
            pieces.push(s.substring_char(start, i));
            start = i + 1;
            assert(texts(pieces@) =~= done.push(piece));
            assert(s@.subrange(start as int, i + 1) =~= Seq::empty());
        } else {
            assert(s@.subrange(start as int, i + 1) =~= piece.push(c));
        }
        i += 1;
    }
    let ghost done = texts(pieces@);
    pieces.push(s.substring_char(start, len));
    assert(s@.take(len as int) =~= s@);
    assert(texts(pieces@) =~= done.push(s@.subrange(start as int, len as int)));
    pieces
}

/// Reads the pairs of an option text; `None` where one of its items is not a
/// key and a value with one `=` between them.
pub fn parse_opts(s: String) -> (opts: Option<Vec<(String, String)>>)
    ensures
        opts is Some <==> parsed(s@) is Some,
        opts matches Some(pairs) ==> pair_texts(pairs@) == parsed(s@)->0,
        opts matches Some(pairs) ==> {
            let text = formatted(pair_texts(pairs@));
            &&& text == s@ || (pairs@.len() > 0 && text.push(',') == s@)
            &&& pairs@.len() == parsed(s@)->0.len()
            &&& forall|i: int|
                0 <= i < pairs@.len() ==> (#[trigger] pairs@[i]).0@ == parsed(s@)->0[i].0
                    && pairs@[i].1@ == parsed(s@)->0[i].1
        },
{
    let mut pieces: Vec<&str> = split_text(s.as_str(), ',');
    proof {
        lemma_split_nonempty(s@, ',');
    }
    let ghost all = texts(pieces@);
    if pieces[pieces.len() - 1].is_empty() {
        pieces.pop();
        assert(texts(pieces@) =~= all.drop_last());
    }
    let mut pairs: Vec<(String, String)> = Vec::new();
    let mut i: usize = 0;
    while i < pieces.len()
        invariant
            i <= pieces.len(),
            texts(pieces@) == items(s@),
            pair_texts(pairs@) == items(s@).take(i as int).map_values(
                |item: Seq<char>| pair(item),
            ),
            forall|j: int| 0 <= j < i ==> is_pair(#[trigger] items(s@)[j]),
        decreases pieces.len() - i,
    {
        let ghost done = pair_texts(pairs@);
        let tokens: Vec<&str> = split_text(pieces[i], '=');
        assert(items(s@)[i as int] == pieces@[i as int]@);
        if tokens.len() != 2 {
            return None;
        }
        assert(texts(tokens@)[0] == tokens@[0]@ && texts(tokens@)[1] == tokens@[1]@);
        pairs.push((tokens[0].to_owned(), tokens[1].to_owned()));
        assert(pair_texts(pairs@) =~= done.push(pair(items(s@)[i as int])));
        assert(items(s@).take(i + 1) =~= items(s@).take(i as int).push(items(s@)[i as int]));
        i += 1;
        assert(pair_texts(pairs@) =~= items(s@).take(i as int).map_values(
            |item: Seq<char>| pair(item),
        ));
    }
    assert(items(s@).take(i as int) =~= items(s@));
    proof {
        lemma_format_of_parse(s@);
        assert forall|i: int| 0 <= i < pairs@.len() implies (#[trigger] pairs@[i]).0@ == parsed(
            s@,
        )->0[i].0 && pairs@[i].1@ == parsed(s@)->0[i].1 by {
            lemma_pair_texts(pairs@, i);
        }
    }
    Some(pairs)
}

/// There is always at least one piece.
proof fn lemma_split_nonempty(s: Seq<char>, separator: char)
    ensures
        split(s, separator).len() > 0,
    decreases s.len(),
{
    if s.len() > 0 {
        lemma_split_nonempty(s.drop_last(), separator);
    }
}

/// Pieces written one after the other with a separator between them.
pub open spec fn joined(pieces: Seq<Seq<char>>, separator: char) -> Seq<char>
    decreases pieces.len(),
{
    if pieces.len() == 0 {
        Seq::empty()
    } else if pieces.len() == 1 {
        pieces[0]
    } else {
        joined(pieces.drop_last(), separator).push(separator) + pieces.last()
    }
}

/// A pair written as an item.
pub open spec fn item(entry: (Seq<char>, Seq<char>)) -> Seq<char> {
    entry.0.push('=') + entry.1
}

/// Pairs written as an option text.
pub open spec fn formatted(pairs: Seq<(Seq<char>, Seq<char>)>) -> Seq<char> {
    joined(pairs.map_values(|entry: (Seq<char>, Seq<char>)| item(entry)), ',')
}

/// A text that holds neither a comma nor a `=`.
pub open spec fn is_plain(s: Seq<char>) -> bool {
    !s.contains(',') && !s.contains('=')
}

/// A text without the separator is one piece.
proof fn lemma_split_single(s: Seq<char>, separator: char)
    requires
        !s.contains(separator),
    ensures
        split(s, separator) == seq![s],
    decreases s.len(),
{
    if s.len() > 0 {
        assert(s.drop_last().push(s.last()) =~= s);
        assert(!s.drop_last().contains(separator)) by {
            if s.drop_last().contains(separator) {
                let i = choose|i: int|
                    0 <= i < s.drop_last().len() && s.drop_last()[i] == separator;
                assert(s[i] == separator);
            }
        }
        lemma_split_single(s.drop_last(), separator);
        assert(s[s.len() - 1] != separator);
        assert(split(s, separator) =~= seq![s]);
    } else {
        assert(s =~= Seq::empty());
    }
}

/// The pieces of two texts with a separator between them are those of the first
/// text, then those of the second.
proof fn lemma_split_concat(a: Seq<char>, b: Seq<char>, separator: char)
    ensures
        split(a.push(separator) + b, separator) == split(a, separator) + split(b, separator),
    decreases b.len(),
{
    let whole = a.push(separator) + b;
    if b.len() == 0 {
        assert(whole =~= a.push(separator));
        assert(whole.drop_last() =~= a);
        assert(split(whole, separator) =~= split(a, separator) + split(b, separator));
    } else {
        let shorter = b.drop_last();
        lemma_split_concat(a, shorter, separator);
        lemma_split_nonempty(shorter, separator);
        assert(whole.drop_last() =~= a.push(separator) + shorter);
        assert(split(whole, separator) =~= split(a, separator) + split(b, separator));
    }
}

/// No piece holds the separator.
proof fn lemma_split_pieces(s: Seq<char>, separator: char, i: int)
    requires
        0 <= i < split(s, separator).len(),
    ensures
        !split(s, separator)[i].contains(separator),
    decreases s.len(),
{
    if s.len() > 0 {
        let before = split(s.drop_last(), separator);
        lemma_split_nonempty(s.drop_last(), separator);
        if i < before.len() {
            lemma_split_pieces(s.drop_last(), separator, i);
        }
        if s.last() != separator && i == before.len() - 1 {
            let grown = before.last().push(s.last());
            if grown.contains(separator) {
                let j = choose|j: int| 0 <= j < grown.len() && grown[j] == separator;
                assert(before.last()[j] == separator);
            }
        }
    }
}

/// The pieces of a text, joined again, are the text.
proof fn lemma_joined_split(s: Seq<char>, separator: char)
    ensures
        joined(split(s, separator), separator) == s,
    decreases s.len(),
{
    if s.len() > 0 {
        let before = split(s.drop_last(), separator);
        let pieces = split(s, separator);
        lemma_split_nonempty(s.drop_last(), separator);
        lemma_joined_split(s.drop_last(), separator);
        assert(s.drop_last().push(s.last()) =~= s);
        if s.last() == separator {
            assert(pieces.drop_last() =~= before);
            assert(joined(pieces, separator) =~= s);
        } else {
            assert(pieces.drop_last() =~= before.drop_last());
            assert(joined(pieces, separator) =~= s);
        }
    } else {
        assert(s =~= Seq::empty());
    }
}

/// Some pieces without the separator, joined and split again, are the pieces.
proof fn lemma_split_joined(pieces: Seq<Seq<char>>, separator: char)
    requires
        pieces.len() > 0,
        forall|i: int| 0 <= i < pieces.len() ==> !(#[trigger] pieces[i]).contains(separator),
    ensures
        split(joined(pieces, separator), separator) == pieces,
    decreases pieces.len(),
{
    lemma_split_single(pieces.last(), separator);
    if pieces.len() == 1 {
        assert(seq![pieces.last()] =~= pieces);
    } else {
        let shorter = pieces.drop_last();
        assert forall|i: int| 0 <= i < shorter.len() implies !(#[trigger] shorter[i]).contains(
            separator,
        ) by {
            assert(shorter[i] == pieces[i]);
        }
        lemma_split_joined(shorter, separator);
        lemma_split_concat(joined(shorter, separator), pieces.last(), separator);
        assert(shorter + seq![pieces.last()] =~= pieces);
    }
}

/// A pair of plain texts, written as an item, reads as the pair.
proof fn lemma_item_pair(entry: (Seq<char>, Seq<char>))
    requires
        is_plain(entry.0),
        is_plain(entry.1),
    ensures
        is_pair(item(entry)),
        pair(item(entry)) == entry,
        !item(entry).contains(','),
        item(entry).len() > 0,
{
    lemma_split_single(entry.0, '=');
    lemma_split_single(entry.1, '=');
    lemma_split_concat(entry.0, entry.1, '=');
    assert(split(item(entry), '=') =~= seq![entry.0, entry.1]);
    if item(entry).contains(',') {
        let i = choose|i: int| 0 <= i < item(entry).len() && item(entry)[i] == ',';
        if i < entry.0.len() {
            assert(entry.0[i] == ',');
        } else {
            assert(entry.1[i - entry.0.len() - 1] == ',');
        }
    }
}

/// An item that is a pair is what its pair is written as, and both parts of the
/// pair are free of `=`.
proof fn lemma_pair_item(text: Seq<char>)
    requires
        is_pair(text),
    ensures
        item(pair(text)) == text,
        !pair(text).0.contains('='),
        !pair(text).1.contains('='),
{
    let parts = split(text, '=');
    lemma_joined_split(text, '=');
    lemma_split_pieces(text, '=', 0);
    lemma_split_pieces(text, '=', 1);
    assert(parts.drop_last() =~= seq![parts[0]]);
    assert(joined(parts.drop_last(), '=') == parts[0]);
    assert(joined(parts, '=') == parts[0].push('=') + parts[1]);
}

/// Writing pairs and reading them gives the pairs back, in their order, as long
/// as no key and no value holds a comma or a `=`.
pub proof fn lemma_parse_of_format(pairs: Seq<(Seq<char>, Seq<char>)>)
    requires
        forall|i: int|
            0 <= i < pairs.len() ==> is_plain((#[trigger] pairs[i]).0) && is_plain(pairs[i].1),
    ensures
        parsed(formatted(pairs)) == Some(pairs),
{
    let written = pairs.map_values(|entry: (Seq<char>, Seq<char>)| item(entry));
    let text = formatted(pairs);
    if pairs.len() == 0 {
        assert(written =~= Seq::empty());
        assert(items(text) =~= Seq::empty());
    } else {
        assert forall|i: int| 0 <= i < written.len() implies !(#[trigger] written[i]).contains(
            ',',
        ) by {
            lemma_item_pair(pairs[i]);
        }
        lemma_split_joined(written, ',');
        lemma_item_pair(pairs.last());
        assert(items(text) == written);
    }
    assert forall|i: int| 0 <= i < items(text).len() implies is_pair(#[trigger] items(text)[i])
        && pair(items(text)[i]) == pairs[i] by {
        lemma_item_pair(pairs[i]);
    }
    assert(items(text).map_values(|item: Seq<char>| pair(item)) =~= pairs);
}

/// Reading a text and writing the pairs that it stands for gives the text back,
/// but for the one comma that may close it. No key and no value that is read
/// holds a comma or a `=`.
pub proof fn lemma_format_of_parse(text: Seq<char>)
    requires
        parsed(text) is Some,
    ensures
        formatted(parsed(text)->0) == text || (parsed(text)->0.len() > 0 && formatted(
            parsed(text)->0,
        ).push(',') == text),
        forall|i: int|
            0 <= i < parsed(text)->0.len() ==> is_plain((#[trigger] parsed(text)->0[i]).0)
                && is_plain(parsed(text)->0[i].1),
{
    let pairs = parsed(text)->0;
    let pieces = split(text, ',');
    let written = pairs.map_values(|entry: (Seq<char>, Seq<char>)| item(entry));
    lemma_split_nonempty(text, ',');
    lemma_joined_split(text, ',');
    assert forall|i: int| 0 <= i < pairs.len() implies written[i] == items(text)[i] && is_plain(
        (#[trigger] pairs[i]).0,
    ) && is_plain(pairs[i].1) by {
        let one = items(text)[i];
        assert(is_pair(one));
        lemma_pair_item(one);
        assert(one == pieces[i]);
        lemma_split_pieces(text, ',', i);
        let (key, value) = pairs[i];
        if key.contains(',') {
            let j = choose|j: int| 0 <= j < key.len() && key[j] == ',';
            assert(one[j] == ',');
        }
        if value.contains(',') {
            let j = choose|j: int| 0 <= j < value.len() && value[j] == ',';
            assert(one[key.len() + 1 + j] == ',');
        }
    }
    assert(written =~= items(text));
    if pieces.last().len() == 0 {
        assert(pieces.last() =~= Seq::empty());
        if pieces.len() == 1 {
            assert(written =~= Seq::empty());
            assert(formatted(pairs) =~= text);
        } else {
            assert(formatted(pairs).push(',') =~= text);
        }
    }
}

/// A text that cannot be read is not what any pairs are written as, whether a
/// comma closes it or not, as long as no key and no value holds a comma or a `=`.
pub proof fn lemma_unreadable(text: Seq<char>, pairs: Seq<(Seq<char>, Seq<char>)>)
    requires
        parsed(text) is None,
        forall|i: int|
            0 <= i < pairs.len() ==> is_plain((#[trigger] pairs[i]).0) && is_plain(pairs[i].1),
    ensures
        formatted(pairs) != text,
        pairs.len() > 0 ==> formatted(pairs).push(',') != text,
{
    lemma_parse_of_format(pairs);
    if pairs.len() > 0 {
        let (key, value) = pairs.last();
        let written = pairs.map_values(|entry: (Seq<char>, Seq<char>)| item(entry));
        assert(written.last() == item(pairs.last()));
        assert(formatted(pairs).last() == item(pairs.last()).last());
        if value.len() > 0 {
            assert(item(pairs.last()).last() == value.last());
            assert(value.contains(value.last()));
        } else {
            assert(item(pairs.last()).last() == '=');
        }
        lemma_closing_comma(formatted(pairs));
    }
}

/// How pairs are written: nothing for no pair, a key, a `=` and a value for one,
/// and a comma before each further one.
pub proof fn lemma_formatted(
    pairs: Seq<(Seq<char>, Seq<char>)>,
    key: Seq<char>,
    value: Seq<char>,
)
    ensures
        formatted(Seq::empty()) == Seq::<char>::empty(),
        formatted(seq![(key, value)]) == key + seq!['='] + value,
        pairs.len() > 0 ==> formatted(pairs.push((key, value))) == formatted(pairs) + seq![','] + (
        key + seq!['='] + value),
{
    let write = |entry: (Seq<char>, Seq<char>)| item(entry);
    let none = Seq::<(Seq<char>, Seq<char>)>::empty();
    assert(none.map_values(write) =~= Seq::empty());
    assert(formatted(none) =~= Seq::<char>::empty());
    assert(seq![(key, value)].map_values(write) =~= seq![item((key, value))]);
    assert(item((key, value)) =~= key + seq!['='] + value);
    if pairs.len() > 0 {
        let more = pairs.push((key, value));
        assert(more.map_values(write).drop_last() =~= pairs.map_values(write));
        assert(more.map_values(write).last() == item((key, value)));
        assert(formatted(more) =~= formatted(pairs) + seq![','] + (key + seq!['='] + value));
    }
}

/// A plain text holds neither a comma nor a `=`, and every other text is plain.
pub proof fn lemma_is_plain(text: Seq<char>)
    ensures
        is_plain(text) <==> forall|i: int|
            0 <= i < text.len() ==> #[trigger] text[i] != ',' && text[i] != '=',
{
    if !is_plain(text) {
        let i = choose|i: int| 0 <= i < text.len() && (text[i] == ',' || text[i] == '=');
        assert(text[i] == ',' || text[i] == '=');
    }
}

/// The texts of pairs are those of their keys and values, pair by pair.
pub proof fn lemma_pair_texts(pairs: Seq<(String, String)>, i: int)
    ensures
        pair_texts(pairs).len() == pairs.len(),
        0 <= i < pairs.len() ==> pair_texts(pairs)[i].0 == pairs[i].0@ && pair_texts(pairs)[i].1
            == pairs[i].1@,
{
}

/// Two option texts with a comma between them stand for the pairs of the first,
/// then those of the second, if both can be read; else they cannot be read.
pub proof fn lemma_parse_of_concat(a: Seq<char>, b: Seq<char>)
    requires
        a.len() > 0,
        a.last() != ',',
    ensures
        parsed(a.push(',') + b) == match (parsed(a), parsed(b)) {
            (Some(first), Some(second)) => Some(first + second),
            _ => None,
        },
{
    let whole = a.push(',') + b;
    lemma_split_concat(a, b, ',');
    lemma_split_nonempty(b, ',');
    lemma_split_nonempty(a.drop_last(), ',');
    assert(items(whole) =~= items(a) + items(b));
    let n = items(a).len();
    assert forall|i: int| 0 <= i < n implies #[trigger] items(a)[i] == items(whole)[i] by {}
    assert forall|i: int| 0 <= i < items(b).len() implies #[trigger] items(b)[i] == items(
        whole,
    )[n + i] by {}
    if parsed(a) is Some && parsed(b) is Some {
        assert forall|i: int| 0 <= i < items(whole).len() implies is_pair(
            #[trigger] items(whole)[i],
        ) by {
            if i < n {
                assert(is_pair(items(a)[i]));
            } else {
                assert(is_pair(items(b)[i - n]));
            }
        }
        assert(parsed(whole)->0 =~= parsed(a)->0 + parsed(b)->0);
    } else if parsed(a) is None {
        let i = choose|i: int| 0 <= i < n && !is_pair(#[trigger] items(a)[i]);
        assert(!is_pair(items(whole)[i]));
    } else {
        let i = choose|i: int| 0 <= i < items(b).len() && !is_pair(#[trigger] items(b)[i]);
        assert(!is_pair(items(whole)[n + i]));
    }
}

/// A comma that closes a non-empty option text changes nothing.
pub proof fn lemma_closing_comma(text: Seq<char>)
    requires
        text.len() > 0,
        text.last() != ',',
    ensures
        parsed(text.push(',')) == parsed(text),
{
    lemma_split_nonempty(text.drop_last(), ',');
    assert(text.push(',').drop_last() =~= text);
    assert(split(text.push(','), ',').drop_last() =~= split(text, ','));
}

} // verus!
