//! Texts as they come in with a request: lists of identifiers, hash tags in
//! free text, and the helpers on strings that the index needs.

use vstd::prelude::*;

verus! {

/// The text that `str::to_lowercase` makes of `text`.
pub uninterp spec fn lowercased(text: Seq<char>) -> Seq<char>;

/// Whether `char::is_whitespace` holds of the character: it is one of the
/// characters that Unicode calls white space.
pub open spec fn is_whitespace(c: char) -> bool {
    let code = c as u32;
    ||| 0x0009 <= code <= 0x000d
    ||| code == 0x0020
    ||| code == 0x0085
    ||| code == 0x00a0
    ||| code == 0x1680
    ||| 0x2000 <= code <= 0x200a
    ||| code == 0x2028
    ||| code == 0x2029
    ||| code == 0x202f
    ||| code == 0x205f
    ||| code == 0x3000
}

/// The text that `str::replace` makes of `text` when every occurrence of
/// `from` is replaced by `to`.
pub uninterp spec fn replaced(text: Seq<char>, from: Seq<char>, to: Seq<char>) -> Seq<char>;

/// What the group `group` of the regular expression `pattern` captures in
/// each match of the expression in `text`, one match after the other;
/// `None` where `pattern` is no regular expression or a match leaves the
/// group out.
pub uninterp spec fn captures_of(pattern: Seq<char>, group: Seq<char>, text: Seq<char>) -> Option<
    Seq<Seq<char>>,
>;

/// The text that is left of `text` when every match of the regular
/// expression `pattern` is taken out; `None` where `pattern` is no regular
/// expression.
pub uninterp spec fn without_matches(pattern: Seq<char>, text: Seq<char>) -> Option<Seq<char>>;

/// The text without the whitespace at its start.
pub open spec fn trimmed_start(text: Seq<char>) -> Seq<char>
    decreases text.len(),
{
    if text.len() > 0 && is_whitespace(text.first()) {
        trimmed_start(text.drop_first())
    } else {
        text
    }
}

/// The text without the whitespace at its end.
pub open spec fn trimmed_end(text: Seq<char>) -> Seq<char>
    decreases text.len(),
{
    if text.len() > 0 && is_whitespace(text.last()) {
        trimmed_end(text.drop_last())
    } else {
        text
    }
}

/// The text without the whitespace at its start and at its end.
pub open spec fn trimmed(text: Seq<char>) -> Seq<char> {
    trimmed_end(trimmed_start(text))
}

/// Whether the text holds nothing but whitespace.
pub open spec fn is_blank(text: Seq<char>) -> bool {
    trimmed(text).len() == 0
}

/// The pieces of `text` between the occurrences of `separator`: one more
/// than there are occurrences. Read from the left: a separator starts a new
/// piece, any other character is added to the last piece.
pub open spec fn split_on(text: Seq<char>, separator: char) -> Seq<Seq<char>>
    decreases text.len(),
{
    if text.len() == 0 {
        seq![Seq::<char>::empty()]
    } else {
        let pieces = split_on(text.drop_last(), separator);
        if text.last() == separator {
            pieces.push(Seq::<char>::empty())
        } else {
            pieces.drop_last().push(pieces.last().push(text.last()))
        }
    }
}

/// `str::to_lowercase`.
#[verifier::external_body]
pub(crate) fn to_lowercase(text: &str) -> (lower: String)
    ensures
        lower@ == lowercased(text@),
{
    text.to_lowercase()
}

/// `str::trim`: the text without the whitespace at its start and at its
/// end.
#[verifier::external_body]
pub(crate) fn trim(text: &str) -> (inner: &str)
    ensures
        inner@ == trimmed(text@),
{
    text.trim()
}

/// `str::split` on a character: the pieces between its occurrences.
#[verifier::external_body]
pub(crate) fn split(text: &str, separator: char) -> (pieces: Vec<String>)
    ensures
        pieces.deep_view() == split_on(text@, separator),
{
    text.split(separator).map(|piece| piece.to_string()).collect()
}

/// `str::replace`.
#[verifier::external_body]
pub(crate) fn replace(text: &str, from: &str, to: &str) -> (changed: String)
    ensures
        changed@ == replaced(text@, from@, to@),
{
    text.replace(from, to)
}

/// `Regex::captures_iter`, with `Captures::name` on each match: what the
/// group captures in the matches of the expression in the text.
#[verifier::external_body]
pub(crate) fn captures(pattern: &str, group: &str, text: &str) -> (found: Option<Vec<String>>)
    ensures
        match found {
            Some(texts) => captures_of(pattern@, group@, text@) == Some(texts.deep_view()),
            None => captures_of(pattern@, group@, text@).is_none(),
        },
{
    let expression = regex::Regex::new(pattern).ok()?;
    expression.captures_iter(text).map(|found| found.name(group).map(|part| part.as_str().to_string())).collect()
}

/// `Regex::replace_all` with an empty replacement: the text without the
/// matches of the expression.
#[verifier::external_body]
pub(crate) fn remove_matches(pattern: &str, text: &str) -> (left: Option<String>)
    ensures
        match left {
            Some(rest) => without_matches(pattern@, text@) == Some(rest@),
            None => without_matches(pattern@, text@).is_none(),
        },
{
    let expression = regex::Regex::new(pattern).ok()?;
    Some(expression.replace_all(text, regex::NoExpand("")).into_owned())
}

/// The character that separates the identifiers of a list.
pub const ID_LIST_SEPARATOR: char = ',';

/// The identifiers in the pieces: each piece without the whitespace around
/// it, but for the pieces that hold nothing else.
pub open spec fn ids_of_pieces(pieces: Seq<Seq<char>>) -> Seq<Seq<char>>
    decreases pieces.len(),
{
    if pieces.len() == 0 {
        seq![]
    } else if is_blank(pieces.last()) {
        ids_of_pieces(pieces.drop_last())
    } else {
        ids_of_pieces(pieces.drop_last()).push(trimmed(pieces.last()))
    }
}

/// The identifiers in a list that separates them by commas.
pub open spec fn ids_in(text: Seq<char>) -> Seq<Seq<char>> {
    ids_of_pieces(split_on(text, ID_LIST_SEPARATOR))
}

/// The identifiers in a list that separates them by commas. Whitespace
/// around an identifier is dropped, and so is an identifier that is empty.
pub fn extract_ids(s: &str) -> (ids: Vec<String>)
    ensures
        ids.deep_view() == ids_in(s@),
{
    let pieces = split(s, ID_LIST_SEPARATOR);
    let mut ids: Vec<String> = Vec::new();
    let mut i: usize = 0;
    while i < pieces.len()
        invariant
            i <= pieces.len(),
            ids.deep_view() == ids_of_pieces(pieces.deep_view().take(i as int)),
        decreases pieces.len() - i,
    {
        let id = trim(pieces[i].as_str());
        proof {
            let done = pieces.deep_view().take(i as int);
            let next = pieces.deep_view().take(i + 1);
            assert(next.drop_last() =~= done);
            assert(next.last() == pieces[i as int]@);
        }
        if !id.is_empty() {
            let ghost before = ids.deep_view();
            ids.push(id.to_owned());
            proof {
                assert(ids.deep_view() =~= before.push(id@));
            }
        }
        i = i + 1;
    }
    proof {
        assert(pieces.deep_view().take(i as int) =~= pieces.deep_view());
    }
    ids
}

/// The regular expression of a hash tag: a hash sign before words that are
/// joined by hyphens. The group `tag` holds the tag without the hash sign.
pub open spec fn hash_tag_pattern() -> Seq<char> {
    r"#(?P<tag>\w+((-\w+)*)?)"@
}

/// The hash tags of a text, without their hash signs.
pub open spec fn hash_tags_in(text: Seq<char>) -> Seq<Seq<char>> {
    match captures_of(hash_tag_pattern(), "tag"@, text) {
        Some(tags) => tags,
        None => seq![],
    }
}

/// The hash tags of a text, in their order and without their hash signs.
pub fn extract_hash_tags(text: &str) -> (tags: Vec<String>)
    ensures
        tags.deep_view() == hash_tags_in(text@),
{
    match captures(r"#(?P<tag>\w+((-\w+)*)?)", "tag", text) {
        Some(tags) => tags,
        None => {
            let none: Vec<String> = Vec::new();
            proof {
                assert(none.deep_view() =~= Seq::<Seq<char>>::empty());
            }
            none
        },
    }
}

/// A text without its hash tags: the hash tags are taken out, each pair of
/// blanks that follow one another is made one blank, the commas are taken
/// out, and so is the whitespace at both ends.
pub open spec fn without_hash_tags(text: Seq<char>) -> Seq<char> {
    let rest = match without_matches(hash_tag_pattern(), text) {
        Some(rest) => rest,
        None => text,
    };
    trimmed(replaced(replaced(rest, "  "@, " "@), ","@, ""@))
}

/// The text without its hash tags.
pub fn remove_hash_tags(text: &str) -> (rest: String)
    ensures
        rest@ == without_hash_tags(text@),
{
    let rest = match remove_matches(r"#(?P<tag>\w+((-\w+)*)?)", text) {
        Some(rest) => rest,
        None => text.to_owned(),
    };
    let single = replace(rest.as_str(), "  ", " ");
    let bare = replace(single.as_str(), ",", "");
    trim(bare.as_str()).to_owned()
}

} // verus!
