use ryn::command::CommandExpr;
use ryn::parser::{parse_expr, parse_line, ParseError};
use ryn::tokenizer::tokenize;

fn toks(words: &[&str]) -> Vec<String> {
    words.iter().map(|w| w.to_string()).collect()
}

fn cmd(words: &[&str]) -> CommandExpr {
    CommandExpr::Command(toks(words))
}

#[test]
fn tokenize_quoted_argument() {
    let r = tokenize("echo \"a b\" c").unwrap();
    assert_eq!(r, toks(&["echo", "a b", "c"]));
}

#[test]
fn tokenize_adjacent_double_ampersand() {
    let r = tokenize("a&&b").unwrap();
    assert_eq!(r, toks(&["a", "&&", "b"]));
}

#[test]
fn tokenize_collapses_space_runs() {
    let r = tokenize("  a   b ").unwrap();
    assert_eq!(r, toks(&["a", "b"]));
}

#[test]
fn tokenize_semicolons_stand_alone() {
    assert_eq!(tokenize("a;b").unwrap(), toks(&["a", ";", "b"]));
    assert_eq!(tokenize(";;").unwrap(), toks(&[";", ";"]));
}

#[test]
fn tokenize_single_amp_and_pipe() {
    let r = tokenize("a & b | c").unwrap();
    assert_eq!(r, toks(&["a", "&", "b", "|", "c"]));
}

#[test]
fn tokenize_double_pipe() {
    let r = tokenize("a || b").unwrap();
    assert_eq!(r, toks(&["a", "||", "b"]));
}

#[test]
fn tokenize_single_quotes_protect_operators() {
    let r = tokenize("echo 'x && y'").unwrap();
    assert_eq!(r, toks(&["echo", "x && y"]));
}

#[test]
fn tokenize_strips_quote_characters() {
    let r = tokenize("a\"b\"c").unwrap();
    assert_eq!(r, toks(&["abc"]));
}

#[test]
fn tokenize_unterminated_quote_is_an_error() {
    assert!(matches!(tokenize("\"abc"), Err(ParseError::UnterminatedQuote)));
    assert!(matches!(tokenize("it's"), Err(ParseError::UnterminatedQuote)));
}

#[test]
fn tokenize_empty_line() {
    assert_eq!(tokenize("").unwrap(), toks(&[]));
    assert_eq!(tokenize("   ").unwrap(), toks(&[]));
}

#[test]
fn parse_single_command_keeps_tokens() {
    let mut t = toks(&["ls", "-la", "/tmp"]);
    let e = parse_expr(&mut t).unwrap();
    assert_eq!(e, cmd(&["ls", "-la", "/tmp"]));
    assert!(t.is_empty());
}

#[test]
fn parse_pipeline_three_stages() {
    let mut t = toks(&["a", "x", "|", "b", "|", "c"]);
    let e = parse_expr(&mut t).unwrap();
    assert_eq!(
        e,
        CommandExpr::Pipeline(vec![cmd(&["a", "x"]), cmd(&["b"]), cmd(&["c"])])
    );
}

#[test]
fn parse_and_or() {
    let mut t = toks(&["a", "&&", "b"]);
    let e = parse_expr(&mut t).unwrap();
    assert_eq!(
        e,
        CommandExpr::And(Box::new(cmd(&["a"])), Box::new(cmd(&["b"])))
    );

    let mut t = toks(&["a", "||", "b"]);
    let e = parse_expr(&mut t).unwrap();
    assert_eq!(
        e,
        CommandExpr::Or(Box::new(cmd(&["a"])), Box::new(cmd(&["b"])))
    );
}

#[test]
fn parse_and_binds_rest_of_line() {
    // `a && b ; c` groups as `a && (b ; c)`.
    let mut t = toks(&["a", "&&", "b", ";", "c"]);
    let e = parse_expr(&mut t).unwrap();
    assert_eq!(
        e,
        CommandExpr::And(
            Box::new(cmd(&["a"])),
            Box::new(CommandExpr::Sequence(vec![cmd(&["b"]), cmd(&["c"])])),
        )
    );
}

#[test]
fn parse_sequence_is_flat() {
    let mut t = toks(&["a", ";", "b", ";", "c"]);
    let e = parse_expr(&mut t).unwrap();
    assert_eq!(
        e,
        CommandExpr::Sequence(vec![cmd(&["a"]), cmd(&["b"]), cmd(&["c"])])
    );
}

#[test]
fn parse_leading_operator_is_rejected() {
    let mut t = toks(&["&&", "ls"]);
    match parse_expr(&mut t) {
        Err(ParseError::UnexpectedOperator(op)) => assert_eq!(op, "&&"),
        other => panic!("expected an operator error, got {:?}", other),
    }
}

#[test]
fn parse_trailing_operators_are_rejected() {
    let mut t = toks(&["a", "&&"]);
    match parse_expr(&mut t) {
        Err(ParseError::UnexpectedOperator(op)) => assert_eq!(op, "&&"),
        other => panic!("expected an operator error, got {:?}", other),
    }

    let mut t = toks(&["a", "|"]);
    match parse_expr(&mut t) {
        Err(ParseError::UnexpectedOperator(op)) => assert_eq!(op, "|"),
        other => panic!("expected an operator error, got {:?}", other),
    }

    let mut t = toks(&["a", ";"]);
    match parse_expr(&mut t) {
        Err(ParseError::UnexpectedOperator(op)) => assert_eq!(op, ";"),
        other => panic!("expected an operator error, got {:?}", other),
    }
}

#[test]
fn parse_empty_pipeline_stage_is_rejected() {
    let mut t = toks(&["|", "a"]);
    match parse_expr(&mut t) {
        Err(ParseError::UnexpectedOperator(op)) => assert_eq!(op, "|"),
        other => panic!("expected an operator error, got {:?}", other),
    }

    let mut t = toks(&["a", "|", "|", "b"]);
    match parse_expr(&mut t) {
        Err(ParseError::UnexpectedOperator(op)) => assert_eq!(op, "|"),
        other => panic!("expected an operator error, got {:?}", other),
    }

    let mut t = toks(&["a", "|", ";", "b"]);
    match parse_expr(&mut t) {
        Err(ParseError::UnexpectedOperator(op)) => assert_eq!(op, ";"),
        other => panic!("expected an operator error, got {:?}", other),
    }
}

#[test]
fn parse_empty_token_list_is_rejected() {
    let mut t = toks(&[]);
    match parse_expr(&mut t) {
        Err(ParseError::UnexpectedOperator(op)) => assert_eq!(op, ""),
        other => panic!("expected an operator error, got {:?}", other),
    }
}

#[test]
fn parse_line_empty_input_is_a_no_op() {
    assert!(matches!(parse_line(""), Ok(None)));
    assert!(matches!(parse_line("   "), Ok(None)));
}

#[test]
fn parse_line_whole_line() {
    let e = parse_line("echo \"a b\" | wc").unwrap().unwrap();
    assert_eq!(
        e,
        CommandExpr::Pipeline(vec![cmd(&["echo", "a b"]), cmd(&["wc"])])
    );
}

#[test]
fn parse_error_message() {
    let e = ParseError::UnexpectedOperator("&&".to_string());
    assert_eq!(e.message(), "syntax error: unexpected '&&'");
    assert_eq!(
        ParseError::UnterminatedQuote.message(),
        "syntax error: unterminated quote"
    );
}

#[test]
fn quoted_operator_token_still_reads_as_operator() {
    // Quoting protects the characters from the tokenizer, but the parser
    // compares tokens by their text, so a lone quoted operator still
    // stands in an operator position.
    let mut t = tokenize("echo '&&'").unwrap();
    assert_eq!(t, toks(&["echo", "&&"]));
    match parse_expr(&mut t) {
        Err(ParseError::UnexpectedOperator(op)) => assert_eq!(op, "&&"),
        other => panic!("expected an operator error, got {:?}", other),
    }
}
