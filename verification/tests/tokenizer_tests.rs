use invi::tokenizer::get_arguments;

#[test]
fn splits_quoted_and_plain_tokens() {
    let args = get_arguments(":acont \"North Wall\" 2 1 3");
    assert_eq!(args, vec![":acont", "North Wall", "2", "1", "3"]);
}

#[test]
fn empty_line_gives_no_tokens() {
    assert_eq!(get_arguments(""), Vec::<String>::new());
    assert_eq!(get_arguments("    "), Vec::<String>::new());
}

#[test]
fn collapses_runs_of_spaces() {
    assert_eq!(get_arguments("a   b"), vec!["a", "b"]);
}

#[test]
fn closing_quote_flushes_even_empty_token() {
    assert_eq!(get_arguments("a \"\" b"), vec!["a", "", "b"]);
}

#[test]
fn unterminated_quote_keeps_trailing_text() {
    assert_eq!(get_arguments(":atag \"half done"), vec![":atag", "half done"]);
    assert_eq!(get_arguments("x \""), vec!["x"]);
}

#[test]
fn quotes_join_adjacent_text() {
    assert_eq!(get_arguments("a\"b c\"d"), vec!["ab c", "d"]);
}
