use toml_example_derive::enclosure::{
    find_unenclosed_char, split_once_unenclosed, split_unenclosed,
};

fn found(text: &str, pat: char) -> Vec<usize> {
    let mut search = find_unenclosed_char(pat);
    let mut places = Vec::new();
    for (i, c) in text.chars().enumerate() {
        if search.accept(c) {
            places.push(i);
        }
    }
    places
}

#[test]
fn finds_unenclosed_commas() {
    assert_eq!(found("a,b,c", ','), vec![1, 3]);
    assert_eq!(found("", ','), Vec::<usize>::new());
    assert_eq!(found("abc", ','), Vec::<usize>::new());
}

#[test]
fn quotes_enclose() {
    assert_eq!(found("\"a,b\",c", ','), vec![5]);
    assert_eq!(found("'a,b',c", ','), vec![5]);
    assert_eq!(found("\"it's\",c", ','), vec![6]);
    assert_eq!(found("'say \"',c", ','), vec![7]);
    assert_eq!(found("\"open,", ','), Vec::<usize>::new());
}

#[test]
fn brackets_enclose() {
    assert_eq!(found("[a,b],{c,d},(e,f),g", ','), vec![5, 11, 17]);
    assert_eq!(found("[(,)],x", ','), vec![5]);
    assert_eq!(found("],a[,b", ','), vec![4]);
    assert_eq!(found("\"[\",a", ','), vec![3]);
}

#[test]
fn backslash_escapes() {
    assert_eq!(found("a\\,b,c", ','), vec![4]);
    assert_eq!(found("\"a\\\",b\",c", ','), vec![7]);
    assert_eq!(found("\\[,a", ','), vec![2]);
    assert_eq!(found("\\\\,a", ','), vec![2]);
}

#[test]
fn enclosing_characters_can_be_searched_for() {
    assert_eq!(found("\"a\"", '"'), vec![2]);
    assert_eq!(found("[a]", ']'), vec![2]);
    assert_eq!(found("a\\b", '\\'), vec![1]);
    assert_eq!(found("[a]", '['), Vec::<usize>::new());
}

#[test]
fn splits_at_unenclosed_commas() {
    assert_eq!(
        split_unenclosed("default = [1, 2], nesting , \"x,y\"", ','),
        vec!["default = [1, 2]", " nesting ", " \"x,y\""]
    );
    assert_eq!(split_unenclosed("", ','), vec![""]);
    assert_eq!(split_unenclosed(",", ','), vec!["", ""]);
    assert_eq!(split_unenclosed("a,", ','), vec!["a", ""]);
}

#[test]
fn pieces_join_to_the_text() {
    for text in ["", ",", "a,b", "(a,b),c", "x=\"1,2\",[3,4],,", "]a,b[,c"] {
        assert_eq!(split_unenclosed(text, ',').join(","), text);
    }
}

#[test]
fn pieces_hold_no_unenclosed_comma() {
    for piece in split_unenclosed("x=\"1,2\",[3,4],{,},,", ',') {
        assert_eq!(split_unenclosed(&piece, ','), vec![piece.clone()]);
    }
}

#[test]
fn text_without_unenclosed_comma_is_one_piece() {
    assert_eq!(split_unenclosed("[a,b]", ','), vec!["[a,b]"]);
}

#[test]
fn cuts_once_at_the_first_unenclosed_sign() {
    assert_eq!(split_once_unenclosed("\"a=b\" = c = d", '='), Some(("\"a=b\" ", " c = d")));
    assert_eq!(split_once_unenclosed("(a=b)", '='), None);
    assert_eq!(split_once_unenclosed("=", '='), Some(("", "")));
    assert_eq!(split_once_unenclosed("", '='), None);
}
