use lib::js::expressions::{Expr, Node, NodeList};
use lib::js::flow::match_::BindingKind;
use lib::js::{ErrorKind, JSParserImpl, ParseError, ParserOptions};
use lib::lexer::{JSLexer, Token};
use lib::token_kinds::TokenKind;

/// The kind of a token written as `w` in a pattern source.
fn pattern_token_kind(w: &str) -> TokenKind {
    match w {
        "|" => TokenKind::pipe,
        "{" => TokenKind::l_brace,
        "}" => TokenKind::r_brace,
        "[" => TokenKind::l_square,
        "]" => TokenKind::r_square,
        "(" => TokenKind::l_paren,
        ")" => TokenKind::r_paren,
        ":" => TokenKind::colon,
        ";" => TokenKind::semi,
        "," => TokenKind::comma,
        "." => TokenKind::period,
        "+" => TokenKind::plus,
        "-" => TokenKind::minus,
        "..." => TokenKind::dotdotdot,
        "const" => TokenKind::rw_const,
        "var" => TokenKind::rw_var,
        "class" => TokenKind::rw_class,
        "yield" => TokenKind::rw_yield,
        "null" => TokenKind::rw_null,
        "true" => TokenKind::rw_true,
        "false" => TokenKind::rw_false,
        _ => {
            let c = w.as_bytes()[0];
            if c.is_ascii_digit() {
                if w.ends_with('n') {
                    TokenKind::bigint_literal
                } else {
                    TokenKind::numeric_literal
                }
            } else if c == b'"' {
                TokenKind::string_literal
            } else {
                TokenKind::identifier
            }
        },
    }
}

/// The tokens of `src`, whose tokens are separated by blanks.
fn pattern_tokens(src: &str) -> Vec<Token> {
    let bytes = src.as_bytes();
    let mut toks = Vec::new();
    let mut i = 0;
    while i < bytes.len() {
        if bytes[i] == b' ' {
            i += 1;
            continue;
        }
        let start = i;
        while i < bytes.len() && bytes[i] != b' ' {
            i += 1;
        }
        let w = &src[start..i];
        let kind = pattern_token_kind(w);
        let value = if kind == TokenKind::string_literal {
            w[1..w.len() - 1].as_bytes().to_vec()
        } else {
            w.as_bytes().to_vec()
        };
        toks.push(Token { kind, value, start, end: i, new_line_before: false });
    }
    toks.push(Token { kind: TokenKind::eof, value: Vec::new(), start: bytes.len(), end: bytes.len(), new_line_before: false });
    toks
}

fn options(strict_mode: bool, param_yield: bool, param_await: bool) -> ParserOptions {
    ParserOptions {
        parse_flow: true,
        parse_ts: false,
        parse_flow_component_syntax: false,
        parse_flow_records: false,
        param_await,
        param_yield,
        strict_mode,
    }
}

fn pattern_parser(src: &str, o: ParserOptions) -> JSParserImpl {
    JSParserImpl::new(JSLexer::new(pattern_tokens(src)).unwrap(), o)
}

fn list(src: &str, l: &NodeList) -> String {
    let mut parts = Vec::new();
    let mut l = l;
    while let NodeList::Cons(e, rest) = l {
        parts.push(render(src, e));
        l = rest;
    }
    parts.join(", ")
}

fn rest_of(src: &str, r: &Option<Box<Expr>>) -> String {
    match r {
        None => String::new(),
        Some(r) => format!(" {}", render(src, r)),
    }
}

/// A bracketed rendering of a pattern over the tokens of `src`.
fn render(src: &str, e: &Expr) -> String {
    let toks = pattern_tokens(src);
    let text = |i: usize| src[toks[i].start..toks[i].end].to_string();
    match &e.node {
        Node::Identifier(i) | Node::NumericLiteral(i) | Node::BigIntLiteral(i) | Node::StringLiteral(i) => text(*i),
        Node::NullLiteral => "null".to_string(),
        Node::BooleanLiteral(b) => format!("{}", b),
        Node::MatchWildcardPattern => "_".to_string(),
        Node::MatchLiteralPattern { literal } => format!("lit {}", render(src, literal)),
        Node::MatchUnaryPattern { operator, argument } => {
            format!("{}{}", if *operator == TokenKind::minus { "-" } else { "+" }, render(src, argument))
        },
        Node::MatchIdentifierPattern { id } => format!("id {}", render(src, id)),
        Node::MatchMemberPattern { base, property } => format!("({}).{}", render(src, base), render(src, property)),
        Node::MatchBindingPattern { id, kind } => format!("{:?} {}", kind, render(src, id)),
        Node::MatchRestPattern { binding } => format!("...{}", rest_of(src, binding)),
        Node::MatchObjectPatternProperty { key, pattern, shorthand } => if *shorthand {
            format!("[{}]", render(src, pattern))
        } else {
            format!("{}: {}", render(src, key), render(src, pattern))
        },
        Node::MatchObjectPattern { properties, rest } => {
            format!("{{{}{}}}", list(src, properties), rest_of(src, rest))
        },
        Node::MatchInstanceObjectPattern { properties, rest } => {
            format!("{{{}{}}}", list(src, properties), rest_of(src, rest))
        },
        Node::MatchInstancePattern { target, object } => {
            format!("{} {}", render(src, target), render(src, object))
        },
        Node::MatchArrayPattern { elements, rest } => format!("[{}{}]", list(src, elements), rest_of(src, rest)),
        Node::MatchOrPattern { patterns } => format!("or({})", list(src, patterns)),
        Node::MatchAsPattern { pattern, target } => format!("{} as {}", render(src, pattern), render(src, target)),
        _ => "?".to_string(),
    }
}

/// Parse a match pattern from `src`: its rendering, the diagnostics and
/// where the parser stopped.
fn pattern_of(src: &str) -> (Option<String>, Vec<ParseError>, usize, Option<Expr>) {
    let mut p = pattern_parser(src, options(false, false, false));
    let r = p.parse_match_pattern_flow();
    (r.as_ref().map(|e| render(src, e)), p.errors.clone(), p.lexer.cur_index(), r)
}

fn pattern_error(src: &str) -> ParseError {
    let (r, errs, _, _) = pattern_of(src);
    assert!(r.is_none());
    assert_eq!(errs.len(), 1);
    errs[0]
}

#[test]
fn match_literal_patterns() {
    let (s, errs, pos, r) = pattern_of("1");
    assert_eq!(s.unwrap(), "lit 1");
    assert!(errs.is_empty());
    assert_eq!(pos, 1);
    assert_eq!(
        r.unwrap(),
        Expr { parens: 0,
            node: Node::MatchLiteralPattern { literal: Box::new(Expr { parens: 0, node: Node::NumericLiteral(0), start: 0, end: 1 }) },
            start: 0,
            end: 1,
        },
    );
    assert_eq!(pattern_of("null").0.unwrap(), "lit null");
    assert_eq!(pattern_of("true").0.unwrap(), "lit true");
    assert_eq!(pattern_of("\"s\"").0.unwrap(), "lit \"s\"");
    assert_eq!(pattern_of("2n").0.unwrap(), "lit 2n");
}

#[test]
fn match_wildcard_and_names() {
    let (s, _, _, r) = pattern_of("_");
    assert_eq!(s.unwrap(), "_");
    assert_eq!((r.as_ref().unwrap().start, r.unwrap().end), (0, 1));
    assert_eq!(pattern_of("A").0.unwrap(), "id A");
}

#[test]
fn match_unary_patterns() {
    let (s, _, _, r) = pattern_of("- 1");
    assert_eq!(s.unwrap(), "-1");
    let e = r.unwrap();
    assert_eq!((e.start, e.end), (0, 3));
    assert_eq!(pattern_of("+ 2n").0.unwrap(), "+2n");
    assert_eq!(pattern_error("- x"), ParseError { kind: ErrorKind::InvalidMatchUnaryArgument, start: 2, end: 2 });
}

#[test]
fn match_member_patterns() {
    let (s, errs, pos, r) = pattern_of("A . B [ 0 ]");
    assert_eq!(s.unwrap(), "((id A).B).0");
    assert!(errs.is_empty());
    assert_eq!(pos, 6);
    let e = r.unwrap();
    assert_eq!((e.start, e.end), (0, 11));
    match e.node {
        Node::MatchMemberPattern { base, .. } => assert_eq!((base.start, base.end), (0, 5)),
        _ => panic!("not a member pattern"),
    }
    assert_eq!(pattern_of("A [ \"k\" ]").0.unwrap(), "(id A).\"k\"");
}

#[test]
fn match_member_pattern_errors() {
    assert_eq!(pattern_error("A . 1"), ParseError { kind: ErrorKind::Expected(TokenKind::identifier), start: 4, end: 5 });
    assert_eq!(pattern_error("A [ x ]"), ParseError { kind: ErrorKind::ExpectedMatchComputedKey, start: 4, end: 5 });
    assert_eq!(pattern_error("A [ 0 x"), ParseError { kind: ErrorKind::Expected(TokenKind::r_square), start: 6, end: 7 });
}

#[test]
fn match_binding_patterns() {
    let (s, errs, _, r) = pattern_of("const x");
    assert_eq!(s.unwrap(), "Const x");
    assert!(errs.is_empty());
    let e = r.unwrap();
    assert_eq!((e.start, e.end), (0, 7));
    match e.node {
        Node::MatchBindingPattern { id, kind } => {
            assert_eq!(kind, BindingKind::Const);
            assert_eq!(*id, Expr { parens: 0, node: Node::Identifier(1), start: 7, end: 7 });
        },
        _ => panic!("not a binding"),
    }
    assert_eq!(pattern_of("let x").0.unwrap(), "Let x");
    assert_eq!(pattern_of("var x").0.unwrap(), "Var x");
    assert_eq!(pattern_error("const 1"), ParseError { kind: ErrorKind::Expected(TokenKind::identifier), start: 6, end: 7 });
    let (s, errs, _, _) = pattern_of("const class");
    assert!(s.is_none());
    assert!(errs.is_empty());
}

#[test]
fn match_binding_name_checks() {
    let mut p = pattern_parser("const yield", options(true, false, false));
    assert!(p.parse_match_pattern_flow().is_some());
    assert_eq!(p.errors, vec![ParseError { kind: ErrorKind::YieldAsIdentifier, start: 6, end: 11 }]);
    let mut p = pattern_parser("const yield", options(false, false, false));
    assert!(p.parse_match_pattern_flow().is_some());
    assert!(p.errors.is_empty());
    let mut p = pattern_parser("const await", options(false, false, true));
    assert!(p.parse_match_pattern_flow().is_some());
    assert_eq!(p.errors, vec![ParseError { kind: ErrorKind::AwaitAsIdentifier, start: 6, end: 11 }]);
    let mut p = pattern_parser("let let", options(true, false, false));
    assert!(p.parse_match_pattern_flow().is_some());
    assert_eq!(p.errors, vec![ParseError { kind: ErrorKind::StrictReservedBinding, start: 4, end: 7 }]);
}

#[test]
fn match_validate_binding_directly() {
    let mut p = pattern_parser("x", options(true, true, true));
    assert!(p.validate_binding_identifier(3, 8, b"yield", TokenKind::rw_yield));
    assert!(!p.validate_binding_identifier(0, 1, b"if", TokenKind::rw_if));
    assert!(p.validate_binding_identifier(0, 5, b"await", TokenKind::identifier));
    assert_eq!(
        p.errors,
        vec![
            ParseError { kind: ErrorKind::YieldAsIdentifier, start: 3, end: 8 },
            ParseError { kind: ErrorKind::AwaitAsIdentifier, start: 0, end: 5 },
        ],
    );
}

#[test]
fn match_or_patterns() {
    let (s, _, pos, r) = pattern_of("A | B | 1");
    assert_eq!(s.unwrap(), "or(id A, id B, lit 1)");
    assert_eq!(pos, 5);
    assert_eq!(r.unwrap().end, 9);
    let (s, _, _, r) = pattern_of("| A | B");
    assert_eq!(s.unwrap(), "or(id A, id B)");
    assert_eq!(r.unwrap().start, 0);
    let (s, _, _, _) = pattern_of("| A");
    assert_eq!(s.unwrap(), "id A");
    assert_eq!(pattern_error("A | ;"), ParseError { kind: ErrorKind::InvalidMatchPattern, start: 4, end: 4 });
}

#[test]
fn match_as_patterns() {
    let (s, _, _, r) = pattern_of("A as x");
    assert_eq!(s.unwrap(), "id A as x");
    assert_eq!(r.unwrap().end, 6);
    assert_eq!(pattern_of("A | B as const y").0.unwrap(), "or(id A, id B) as Const y");
    assert_eq!(pattern_error("A as 1"), ParseError { kind: ErrorKind::ExpectedMatchBindingTarget, start: 5, end: 6 });
}

#[test]
fn match_group_patterns() {
    let (s, _, pos, _) = pattern_of("( A | B ) as x");
    assert_eq!(s.unwrap(), "or(id A, id B) as x");
    assert_eq!(pos, 7);
    assert_eq!(pattern_error("( A"), ParseError { kind: ErrorKind::Expected(TokenKind::r_paren), start: 3, end: 3 });
}

#[test]
fn match_object_patterns() {
    let (s, errs, _, r) = pattern_of("{ a : 1 , const b , ... }");
    assert_eq!(s.unwrap(), "{a: lit 1, [Const b] ...}");
    assert!(errs.is_empty());
    assert_eq!(r.unwrap().end, 25);
    assert_eq!(pattern_of("{ ... const r }").0.unwrap(), "{ ... Const r}");
    assert_eq!(pattern_of("{ 1 : _ , \"k\" : _ }").0.unwrap(), "{1: _, \"k\": _}");
    assert_eq!(pattern_of("{ }").0.unwrap(), "{}");
}

#[test]
fn match_object_pattern_errors() {
    assert_eq!(pattern_error("{ ; }"), ParseError { kind: ErrorKind::ExpectedMatchPropertyKey, start: 2, end: 3 });
    assert_eq!(pattern_error("{ a 1 }"), ParseError { kind: ErrorKind::Expected(TokenKind::colon), start: 4, end: 5 });
    assert_eq!(pattern_error("{ a : 1"), ParseError { kind: ErrorKind::Expected(TokenKind::r_brace), start: 7, end: 7 });
}

#[test]
fn match_array_patterns() {
    let (s, _, _, r) = pattern_of("[ 1 , _ , ... ]");
    assert_eq!(s.unwrap(), "[lit 1, _ ...]");
    assert_eq!((r.as_ref().unwrap().start, r.unwrap().end), (0, 15));
    assert_eq!(pattern_of("[ A | B , ]").0.unwrap(), "[or(id A, id B)]");
    assert_eq!(pattern_of("[ ]").0.unwrap(), "[]");
    assert_eq!(pattern_error("[ 1 2 ]"), ParseError { kind: ErrorKind::Expected(TokenKind::r_square), start: 4, end: 5 });
}

#[test]
fn match_instance_patterns() {
    let (s, _, _, r) = pattern_of("Foo { a : 1 }");
    assert_eq!(s.unwrap(), "id Foo {a: lit 1}");
    let e = r.unwrap();
    assert_eq!((e.start, e.end), (0, 13));
    match e.node {
        Node::MatchInstancePattern { object, .. } => {
            assert!(matches!(object.node, Node::MatchInstanceObjectPattern { .. }));
            assert_eq!((object.start, object.end), (4, 13));
        },
        _ => panic!("not an instance pattern"),
    }
    assert_eq!(pattern_of("A . B { }").0.unwrap(), "(id A).B {}");
}

#[test]
fn match_invalid_start() {
    assert_eq!(pattern_error(";"), ParseError { kind: ErrorKind::InvalidMatchPattern, start: 0, end: 0 });
}

#[test]
fn match_rest_pattern_directly() {
    let mut p = pattern_parser("... var v", options(false, false, false));
    let r = p.parse_match_rest_pattern_flow().unwrap();
    assert_eq!(render("... var v", &r), "... Var v");
    assert_eq!((r.start, r.end), (0, 9));
}

#[test]
fn match_node_constructors() {
    let p = pattern_parser("\"s\" 1 2n x null", options(false, false, false));
    let s = p.make_match_string_literal();
    assert_eq!(s, Expr { parens: 0, node: Node::StringLiteral(0), start: 0, end: 3 });
    let w = p.wrap_match_literal_pattern(s);
    assert_eq!((w.start, w.end), (0, 3));
    let mut p = p;
    p.advance();
    assert_eq!(p.make_match_numeric_literal().node, Node::NumericLiteral(1));
    p.advance();
    assert_eq!(p.make_match_bigint_literal().node, Node::BigIntLiteral(2));
    p.advance();
    assert_eq!(p.make_match_current_identifier(), Expr { parens: 0, node: Node::Identifier(3), start: 9, end: 10 });
    p.advance();
    assert_eq!(p.make_match_null_literal(), Expr { parens: 0, node: Node::NullLiteral, start: 11, end: 15 });
}

#[test]
fn match_argument_from_arguments() {
    let mut p = pattern_parser("x", options(false, false, false));
    let a = Expr { parens: 0, node: Node::Identifier(0), start: 4, end: 5 };
    let r = p.reparse_arguments_as_match_argument_flow(3, 6, vec![a]);
    assert_eq!(r, Expr { parens: 0, node: Node::Identifier(0), start: 4, end: 5 });
    assert!(p.errors.is_empty());

    let r = p.reparse_arguments_as_match_argument_flow(3, 7, vec![]);
    assert_eq!(r, Expr { parens: 0, node: Node::SequenceExpression { expressions: NodeList::Nil }, start: 3, end: 7 });
    assert_eq!(p.errors, vec![ParseError { kind: ErrorKind::MatchArgumentEmpty, start: 3, end: 7 }]);

    let mut p = pattern_parser("x", options(false, false, false));
    let a = Expr { parens: 0, node: Node::Identifier(0), start: 4, end: 5 };
    let spread = Expr { parens: 0,
        node: Node::SpreadElement { argument: Box::new(Expr { parens: 0, node: Node::Identifier(1), start: 10, end: 11 }) },
        start: 7,
        end: 11,
    };
    let r = p.reparse_arguments_as_match_argument_flow(3, 12, vec![a, spread]);
    match r.node {
        Node::SequenceExpression { expressions: NodeList::Cons(first, rest) } => {
            assert_eq!(first.node, Node::Identifier(0));
            assert!(matches!(rest.as_ref(), NodeList::Cons(_, _)));
        },
        _ => panic!("not a sequence"),
    }
    assert_eq!((r.start, r.end), (3, 12));
    assert_eq!(p.errors, vec![ParseError { kind: ErrorKind::MatchArgumentSpread, start: 7, end: 11 }]);
}
