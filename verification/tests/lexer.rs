use lib::lexer::{JSLexer, Token};
use lib::token_kinds::TokenKind;

fn tok(kind: TokenKind, start: usize, end: usize, new_line_before: bool) -> Token {
    Token { kind, value: Vec::new(), start, end, new_line_before }
}

fn name(text: &str, start: usize, new_line_before: bool) -> Token {
    Token {
        kind: TokenKind::identifier,
        value: text.as_bytes().to_vec(),
        start,
        end: start + text.len(),
        new_line_before,
    }
}

/// The tokens of `a b` followed, on the next line, by `c`.
fn three_names() -> JSLexer {
    JSLexer::new(vec![
        name("a", 0, false),
        name("b", 2, false),
        name("c", 4, true),
        tok(TokenKind::eof, 5, 5, false),
    ])
    .unwrap()
}

#[test]
fn lexer_requires_eof() {
    assert!(JSLexer::new(vec![tok(TokenKind::identifier, 0, 0, false)]).is_none());
    assert!(JSLexer::new(vec![]).is_none());
    assert!(JSLexer::new(vec![tok(TokenKind::eof, 0, 0, false)]).is_some());
}

#[test]
fn lexer_advance_stops_at_eof() {
    let mut l = three_names();
    assert_eq!(l.cur_index(), 0);
    assert_eq!(l.prev_token_end(), 0);
    assert_eq!(l.advance(), (0, 1));
    assert_eq!(l.advance(), (2, 3));
    assert_eq!(l.prev_token_end(), 3);
    assert!(l.is_new_line_before_current_token());
    assert_eq!(l.advance(), (4, 5));
    assert_eq!(l.cur_kind(), TokenKind::eof);
    assert_eq!(l.advance(), (5, 5));
    assert_eq!(l.cur_index(), 3);
    assert_eq!(l.cur_range(), (5, 5));
}

#[test]
fn lexer_lookahead_stops_at_line_break() {
    let mut l = three_names();
    assert_eq!(l.lookahead1(), Some(TokenKind::identifier));
    l.advance();
    assert_eq!(l.lookahead1(), None);
    l.advance();
    l.advance();
    assert_eq!(l.lookahead1(), Some(TokenKind::eof));
}

#[test]
fn lexer_save_and_restore() {
    let mut l = three_names();
    l.advance();
    let sp = l.save_point();
    l.advance();
    l.advance();
    l.restore(sp);
    assert_eq!(l.cur_index(), 1);
    assert_eq!(l.token().value, b"b".to_vec());
}

#[test]
fn lexer_as_operator_rewrite_lasts_until_moving() {
    let mut l = JSLexer::new(vec![name("as", 0, false), tok(TokenKind::eof, 2, 2, false)]).unwrap();
    l.convert_cur_token_to_as_operator();
    assert_eq!(l.cur_kind(), TokenKind::as_operator);
    assert_eq!(l.token().kind, TokenKind::identifier);
    let sp = l.save_point();
    l.restore(sp);
    assert_eq!(l.cur_kind(), TokenKind::identifier);
    l.convert_cur_token_to_as_operator();
    l.advance();
    assert_eq!(l.cur_kind(), TokenKind::eof);
}

#[test]
fn lexer_token_lookup_by_index() {
    let l = three_names();
    assert_eq!(l.token_at(2).value, b"c".to_vec());
    assert_eq!(l.kind_at(3), Some(TokenKind::eof));
    assert_eq!(l.kind_at(4), None);
}
