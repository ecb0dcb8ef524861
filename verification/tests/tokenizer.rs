use toml_query::error::ErrorKind;
use toml_query::tokenizer::{chars_of, tokenize, tokenize_with_seperator, Token};

fn ident(s: &str) -> Token {
    Token::Identifier { ident: String::from(s) }
}

fn index(i: usize) -> Token {
    Token::Index { idx: i }
}

#[test]
fn empty_path_has_no_tokens() {
    assert_eq!(tokenize("").unwrap(), vec![]);
    assert_eq!(tokenize_with_seperator("", '/').unwrap(), vec![]);
}

#[test]
fn single_identifier() {
    assert_eq!(tokenize("example").unwrap(), vec![ident("example")]);
}

#[test]
fn single_index() {
    assert_eq!(tokenize("[0]").unwrap(), vec![index(0)]);
    assert_eq!(tokenize("[1337]").unwrap(), vec![index(1337)]);
    assert_eq!(tokenize("[007]").unwrap(), vec![index(7)]);
}

#[test]
fn mixed_path_keeps_the_order() {
    assert_eq!(
        tokenize("fruit.blah.[0].physical.color").unwrap(),
        vec![ident("fruit"), ident("blah"), index(0), ident("physical"), ident("color")]
    );
}

#[test]
fn other_separator() {
    assert_eq!(
        tokenize_with_seperator("a/b.c/[2]", '/').unwrap(),
        vec![ident("a"), ident("b.c"), index(2)]
    );
    assert_eq!(tokenize_with_seperator("a.b", '/').unwrap(), vec![ident("a.b")]);
}

#[test]
fn separator_of_several_bytes() {
    assert_eq!(
        tokenize_with_seperator("käse→[3]→brot", '→').unwrap(),
        vec![ident("käse"), index(3), ident("brot")]
    );
}

#[test]
fn empty_segments_are_empty_identifiers() {
    assert_eq!(tokenize("a..b").unwrap(), vec![ident("a"), ident(""), ident("b")]);
    assert_eq!(tokenize(".a").unwrap(), vec![ident(""), ident("a")]);
    assert_eq!(tokenize("a.").unwrap(), vec![ident("a"), ident("")]);
    assert_eq!(tokenize(".").unwrap(), vec![ident(""), ident("")]);
}

#[test]
fn brackets_inside_an_identifier_are_kept() {
    assert_eq!(tokenize("a[0]").unwrap(), vec![ident("a[0]")]);
    assert_eq!(tokenize("a]").unwrap(), vec![ident("a]")]);
    assert_eq!(tokenize("0]").unwrap(), vec![ident("0]")]);
    assert_eq!(tokenize("a[").unwrap(), vec![ident("a[")]);
}

#[test]
fn bracket_without_number_is_refused() {
    for query in ["[abc]", "[]", "[", "[0", "[0]x", "[-1]", "[1 ]", "[1.5]", "[٣]", "a.[x].b"] {
        let err = tokenize(query).unwrap_err();
        assert_eq!(err.kind(), &ErrorKind::ArrayAccessWithoutIndex, "{}", query);
    }
}

#[test]
fn number_that_does_not_fit_is_refused() {
    let err = tokenize("[340282366920938463463374607431768211456]").unwrap_err();
    assert_eq!(err.kind(), &ErrorKind::ArrayAccessWithInvalidIndex);
    let err = tokenize("a.[99999999999999999999999999].b").unwrap_err();
    assert_eq!(err.kind(), &ErrorKind::ArrayAccessWithInvalidIndex);
}

#[test]
fn largest_index_is_taken() {
    let query = format!("[{}]", usize::MAX);
    assert_eq!(tokenize(&query).unwrap(), vec![index(usize::MAX)]);
}

#[test]
fn first_fault_wins() {
    let err = tokenize("[99999999999999999999999999].[x]").unwrap_err();
    assert_eq!(err.kind(), &ErrorKind::ArrayAccessWithInvalidIndex);
    let err = tokenize("[x].[99999999999999999999999999]").unwrap_err();
    assert_eq!(err.kind(), &ErrorKind::ArrayAccessWithoutIndex);
}

#[test]
fn no_digit_counts_before_overflow() {
    let err = tokenize("[99999999999999999999999999x]").unwrap_err();
    assert_eq!(err.kind(), &ErrorKind::ArrayAccessWithoutIndex);
}

#[test]
fn chars_of_gives_the_characters() {
    assert_eq!(chars_of("aß→"), vec!['a', 'ß', '→']);
    assert_eq!(chars_of(""), Vec::<char>::new());
}
