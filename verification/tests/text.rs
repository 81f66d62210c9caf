use entry_index::text::{extract_hash_tags, extract_ids, remove_hash_tags, ID_LIST_SEPARATOR};

#[test]
fn ids_are_separated_by_commas() {
    assert_eq!(ID_LIST_SEPARATOR, ',');
    assert_eq!(extract_ids("abc"), ["abc"]);
    assert_eq!(extract_ids("a,b,c"), ["a", "b", "c"]);
    assert_eq!(extract_ids("b,a,b"), ["b", "a", "b"]);
    assert_eq!(extract_ids("a b,c"), ["a b", "c"]);
}

#[test]
fn whitespace_around_ids_is_dropped() {
    assert_eq!(extract_ids(" a , b\t,\nc "), ["a", "b", "c"]);
    assert_eq!(extract_ids("\u{a0}a\u{2003}"), ["a"]);
}

#[test]
fn empty_ids_are_dropped() {
    assert!(extract_ids("").is_empty());
    assert!(extract_ids(",").is_empty());
    assert!(extract_ids(" , ,, ").is_empty());
    assert_eq!(extract_ids(",a,,b,"), ["a", "b"]);
    assert_eq!(extract_ids(", a, ,b ,"), ["a", "b"]);
}

#[test]
fn hash_tags_are_found_in_a_text() {
    assert!(extract_hash_tags("none").is_empty());
    assert!(extract_hash_tags("").is_empty());
    assert!(extract_hash_tags("# alone").is_empty());
    assert_eq!(extract_hash_tags("#foo"), ["foo"]);
    assert_eq!(extract_hash_tags("#foo #bar"), ["foo", "bar"]);
    assert_eq!(extract_hash_tags("some #tag in a #text."), ["tag", "text"]);
    assert_eq!(extract_hash_tags("#foo-bar #baz_3"), ["foo-bar", "baz_3"]);
    assert_eq!(extract_hash_tags("#foo- #-bar"), ["foo"]);
    assert_eq!(extract_hash_tags("#a#b"), ["a", "b"]);
    assert_eq!(extract_hash_tags("#gr\u{fc}n #\u{f6}ko-fair"), ["gr\u{fc}n", "\u{f6}ko-fair"]);
}

#[test]
fn hash_tags_are_taken_out_of_a_text() {
    assert_eq!(remove_hash_tags("none"), "none");
    assert_eq!(remove_hash_tags(""), "");
    assert_eq!(remove_hash_tags("#foo"), "");
    assert_eq!(remove_hash_tags("some #tag in a #text"), "some in a");
    assert_eq!(remove_hash_tags("#foo bar #baz"), "bar");
    assert_eq!(remove_hash_tags("  bar  "), "bar");
    assert_eq!(remove_hash_tags("a, b,c"), "a bc");
    assert_eq!(remove_hash_tags("a #b c #d e"), "a c e");
    // pairs of blanks are made one blank, one after the other
    assert_eq!(remove_hash_tags("a    b"), "a  b");
    assert_eq!(remove_hash_tags("a #b #c d"), "a  d");
    // the commas leave after the blanks
    assert_eq!(remove_hash_tags("a , b"), "a  b");
    assert_eq!(remove_hash_tags("#a-b-c-"), "-");
}

#[test]
fn every_kind_of_white_space_is_dropped_around_an_id() {
    let white = [
        '\u{9}', '\u{a}', '\u{b}', '\u{c}', '\u{d}', '\u{20}', '\u{85}', '\u{a0}', '\u{1680}',
        '\u{2000}', '\u{2001}', '\u{2002}', '\u{2003}', '\u{2004}', '\u{2005}', '\u{2006}',
        '\u{2007}', '\u{2008}', '\u{2009}', '\u{200a}', '\u{2028}', '\u{2029}', '\u{202f}',
        '\u{205f}', '\u{3000}',
    ];
    for c in white {
        assert_eq!(extract_ids(&format!("{}a{},{}", c, c, c)), ["a"]);
    }
    let other = ['\u{8}', '\u{e}', '\u{1f}', '\u{180e}', '\u{200b}', '\u{2060}', '\u{feff}', '_'];
    for c in other {
        assert_eq!(
            extract_ids(&format!("{}a{},{}", c, c, c)),
            [format!("{}a{}", c, c), format!("{}", c)]
        );
    }
}
