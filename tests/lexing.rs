use lisp_interpreter::ast::{BinaryBoolOp, BinaryNumOp, CmpBoolOp, UnaryBoolOp};
use lisp_interpreter::error::Error;
use lisp_interpreter::tokenizer::{
    string_to_tokens, token_kind_to_binary_bool_op, token_kind_to_binary_num_op, token_kind_to_cmp_bool_op,
    token_kind_to_unary_bool_op, TokenIter, TokenKind,
};

#[test]
fn tokens_of_expression() {
    let ts = string_to_tokens("  (+ 12 x?)\n".to_string()).unwrap();
    let kinds: Vec<TokenKind> = ts.iter().map(|t| t.kind).collect();
    assert_eq!(
        kinds,
        vec![TokenKind::OpenParen, TokenKind::Plus, TokenKind::Number, TokenKind::Identifier, TokenKind::CloseParen]
    );
    assert_eq!(ts[2].text, "12");
    assert_eq!(ts[3].text, "x?");
}

#[test]
fn brackets_are_delimiters() {
    let ts = string_to_tokens("[]".to_string()).unwrap();
    assert_eq!(ts[0].kind, TokenKind::OpenParen);
    assert_eq!(ts[0].text, "(");
    assert_eq!(ts[1].kind, TokenKind::CloseParen);
    assert_eq!(ts[1].text, ")");
}

#[test]
fn keywords_and_booleans() {
    let ts = string_to_tokens("cond define list cons empty car cdr empty? list? true false other".to_string()).unwrap();
    let kinds: Vec<TokenKind> = ts.iter().map(|t| t.kind).collect();
    assert_eq!(
        kinds,
        vec![
            TokenKind::Cond,
            TokenKind::Define,
            TokenKind::List,
            TokenKind::Cons,
            TokenKind::Empty,
            TokenKind::Car,
            TokenKind::Cdr,
            TokenKind::EmptyHuh,
            TokenKind::ListHuh,
            TokenKind::Boolean,
            TokenKind::Boolean,
            TokenKind::Identifier,
        ]
    );
}

#[test]
fn empty_source_has_no_tokens() {
    assert_eq!(string_to_tokens("".to_string()).unwrap().len(), 0);
    assert_eq!(string_to_tokens(" \t\n".to_string()).unwrap().len(), 0);
}

#[test]
fn lex_error_on_illegal_character() {
    assert!(matches!(string_to_tokens("(+ 1 $)".to_string()), Err(Error::LexError('$'))));
}

#[test]
fn operator_tables() {
    assert_eq!(token_kind_to_binary_num_op(&TokenKind::Percent), Ok(BinaryNumOp::Mod));
    assert_eq!(token_kind_to_binary_num_op(&TokenKind::Bang), Err(Error::ParseError));
    assert_eq!(token_kind_to_binary_bool_op(&TokenKind::Pipe), Ok(BinaryBoolOp::Or));
    assert_eq!(token_kind_to_binary_bool_op(&TokenKind::Plus), Err(Error::ParseError));
    assert_eq!(token_kind_to_unary_bool_op(&TokenKind::Bang), Ok(UnaryBoolOp::Not));
    assert_eq!(token_kind_to_unary_bool_op(&TokenKind::Minus), Err(Error::ParseError));
    assert_eq!(token_kind_to_cmp_bool_op(&TokenKind::Equal), Ok(CmpBoolOp::Eq));
    assert_eq!(token_kind_to_cmp_bool_op(&TokenKind::Star), Err(Error::ParseError));
}

#[test]
fn cursor_lookahead() {
    let ts = string_to_tokens("(cond x)".to_string()).unwrap();
    let mut it = TokenIter::new(&ts);
    assert_eq!(it.peek_nth(1).unwrap().kind, TokenKind::Cond);
    assert_eq!(it.next().unwrap().kind, TokenKind::OpenParen);
    assert_eq!(it.peek().unwrap().kind, TokenKind::Cond);
    assert_eq!(it.position(), 1);
    assert!(it.peek_nth(5).is_none());
}
