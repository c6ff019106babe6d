use lib::js::classes::can_follow_modifier_ts;
use lib::js::expressions::{Expr, Node};
use lib::js::flow::can_follow_variance_keyword_flow;
use lib::js::flow::declarations::{
    enum_kind_str_flow, get_member_enum_kind_flow, EnumInit, EnumKind, EnumMember,
};
use lib::js::{ErrorKind, JSParserImpl, ParseError, ParserOptions};
use lib::lexer::{JSLexer, Token};
use lib::token_kinds::TokenKind;

/// The kind of a token written as `w` in a test source.
fn word_kind(w: &str) -> TokenKind {
    match w {
        "enum" => TokenKind::rw_enum,
        "static" => TokenKind::rw_static,
        "class" => TokenKind::rw_class,
        "true" => TokenKind::rw_true,
        "false" => TokenKind::rw_false,
        "{" => TokenKind::l_brace,
        "}" => TokenKind::r_brace,
        "(" => TokenKind::l_paren,
        "[" => TokenKind::l_square,
        "<" => TokenKind::less,
        ">" => TokenKind::greater,
        "." => TokenKind::period,
        "*" => TokenKind::star,
        "=" => TokenKind::equal,
        "-" => TokenKind::minus,
        "," => TokenKind::comma,
        ":" => TokenKind::colon,
        ";" => TokenKind::semi,
        "..." => TokenKind::dotdotdot,
        _ => {
            let c = w.as_bytes()[0];
            if c.is_ascii_digit() {
                if w.ends_with('n') {
                    TokenKind::bigint_literal
                } else {
                    TokenKind::numeric_literal
                }
            } else if c == b'"' {
                TokenKind::string_literal
            } else {
                TokenKind::identifier
            }
        },
    }
}

/// The tokens of `src`, whose tokens are separated by blanks; a line break
/// marks the next token.
fn tokens_of(src: &str) -> Vec<Token> {
    let bytes = src.as_bytes();
    let mut toks = Vec::new();
    let mut i = 0;
    let mut nl = false;
    while i < bytes.len() {
        if bytes[i] == b' ' || bytes[i] == b'\n' {
            nl = nl || bytes[i] == b'\n';
            i += 1;
            continue;
        }
        let start = i;
        while i < bytes.len() && bytes[i] != b' ' && bytes[i] != b'\n' {
            i += 1;
        }
        let w = &src[start..i];
        let kind = word_kind(w);
        let value = if kind == TokenKind::string_literal {
            w[1..w.len() - 1].as_bytes().to_vec()
        } else {
            w.as_bytes().to_vec()
        };
        toks.push(Token { kind, value, start, end: i, new_line_before: nl });
        nl = false;
    }
    toks.push(Token { kind: TokenKind::eof, value: Vec::new(), start: bytes.len(), end: bytes.len(), new_line_before: nl });
    toks
}

fn flow_parser(src: &str, types: bool) -> JSParserImpl {
    JSParserImpl::new(
        JSLexer::new(tokens_of(src)).unwrap(),
        ParserOptions {
            parse_flow: types,
            parse_ts: false,
            parse_flow_component_syntax: true,
            parse_flow_records: true,
            param_await: false,
            param_yield: false,
            strict_mode: false,
        },
    )
}

fn member(id: usize, init: EnumInit, start: usize, end: usize) -> EnumMember {
    EnumMember { id, init, start, end }
}

#[test]
fn enum_string_defaulted() {
    let mut p = flow_parser("enum E { A , B }", true);
    let d = p.parse_enum_declaration_flow(0, false).unwrap();
    assert!(p.errors.is_empty());
    assert_eq!(d.id, 1);
    assert!(!d.declare);
    assert_eq!((d.start, d.end), (0, 16));
    assert_eq!(d.body.kind, EnumKind::String);
    assert!(!d.body.has_explicit_type);
    assert!(!d.body.has_unknown_members);
    assert_eq!((d.body.start, d.body.end), (7, 16));
    assert_eq!(
        d.body.members,
        vec![member(3, EnumInit::Defaulted, 9, 10), member(5, EnumInit::Defaulted, 13, 14)],
    );
    assert_eq!(p.cur_kind(), TokenKind::eof);
}

#[test]
fn enum_number_inferred() {
    let mut p = flow_parser("enum E { A = 1 , B = 2 }", true);
    let d = p.parse_enum_declaration_flow(0, true).unwrap();
    assert!(d.declare);
    assert_eq!(d.body.kind, EnumKind::Number);
    assert_eq!(
        d.body.members,
        vec![member(3, EnumInit::Number(5, false), 9, 14), member(7, EnumInit::Number(9, false), 17, 22)],
    );
}

#[test]
fn enum_negative_number_member() {
    let mut p = flow_parser("enum E { A = - 1 }", true);
    let d = p.parse_enum_declaration_flow(0, false).unwrap();
    assert_eq!(d.body.members, vec![member(3, EnumInit::Number(6, true), 9, 16)]);
}

#[test]
fn enum_explicit_kinds() {
    let mut p = flow_parser("enum E of symbol { A , B }", true);
    let d = p.parse_enum_declaration_flow(0, false).unwrap();
    assert_eq!(d.body.kind, EnumKind::Symbol);
    assert!(d.body.has_explicit_type);
    assert_eq!(d.body.start, 7);
    let mut p = flow_parser("enum E of boolean { A = true , B = false }", true);
    let d = p.parse_enum_declaration_flow(0, false).unwrap();
    assert_eq!(d.body.kind, EnumKind::Boolean);
    assert_eq!(d.body.members[1].init, EnumInit::Boolean(false));
    let mut p = flow_parser("enum E of bigint { A = 1n }", true);
    let d = p.parse_enum_declaration_flow(0, false).unwrap();
    assert_eq!(d.body.kind, EnumKind::BigInt);
    assert_eq!(d.body.members[0].init, EnumInit::BigInt(7));
}

#[test]
fn enum_inexact_body() {
    let mut p = flow_parser("enum E { A , ... }", true);
    let d = p.parse_enum_declaration_flow(0, false).unwrap();
    assert!(d.body.has_unknown_members);
    assert_eq!(d.body.members.len(), 1);
    assert_eq!(d.end, 18);
}

#[test]
fn enum_inexact_must_be_last() {
    let mut p = flow_parser("enum E { ... , A }", true);
    assert!(p.parse_enum_declaration_flow(0, false).is_none());
    assert_eq!(p.errors, vec![ParseError { kind: ErrorKind::EnumInexactNotLast, start: 9, end: 9 }]);
}

#[test]
fn enum_missing_initializers() {
    let mut p = flow_parser("enum E of number { A , B }", true);
    assert!(p.parse_enum_declaration_flow(0, false).is_none());
    assert_eq!(p.errors, vec![ParseError { kind: ErrorKind::EnumMissingInitializers, start: 17, end: 17 }]);
}

#[test]
fn enum_inconsistent_initializers() {
    let mut p = flow_parser("enum E { A = 1 , B }", true);
    assert!(p.parse_enum_declaration_flow(0, false).is_none());
    assert_eq!(p.errors, vec![ParseError { kind: ErrorKind::EnumInconsistentInitializers, start: 17, end: 18 }]);
}

#[test]
fn enum_initializer_mismatch() {
    let mut p = flow_parser("enum E { A = 1 , B = \"x\" }", true);
    assert!(p.parse_enum_declaration_flow(0, false).is_none());
    assert_eq!(
        p.errors,
        vec![ParseError {
            kind: ErrorKind::EnumInitializerMismatch(EnumKind::String, EnumKind::Number),
            start: 17,
            end: 24,
        }],
    );
}

#[test]
fn enum_initializer_expected() {
    let mut p = flow_parser("enum E { A = x }", true);
    assert!(p.parse_enum_declaration_flow(0, false).is_none());
    assert_eq!(p.errors, vec![ParseError { kind: ErrorKind::EnumMemberInitializerExpected, start: 13, end: 14 }]);
    let mut p = flow_parser("enum E { A = - x }", true);
    assert!(p.parse_enum_declaration_flow(0, false).is_none());
    assert_eq!(p.errors, vec![ParseError { kind: ErrorKind::Expected(TokenKind::numeric_literal), start: 15, end: 16 }]);
}

#[test]
fn enum_structure_errors() {
    let mut p = flow_parser("enum { A }", true);
    assert!(p.parse_enum_declaration_flow(0, false).is_none());
    assert_eq!(p.errors, vec![ParseError { kind: ErrorKind::Expected(TokenKind::identifier), start: 5, end: 6 }]);
    let mut p = flow_parser("enum E A", true);
    assert!(p.parse_enum_declaration_flow(0, false).is_none());
    assert_eq!(p.errors, vec![ParseError { kind: ErrorKind::Expected(TokenKind::l_brace), start: 7, end: 8 }]);
    let mut p = flow_parser("enum E { A B }", true);
    assert!(p.parse_enum_declaration_flow(0, false).is_none());
    assert_eq!(p.errors, vec![ParseError { kind: ErrorKind::Expected(TokenKind::r_brace), start: 11, end: 12 }]);
    let mut p = flow_parser("enum E { 1 }", true);
    assert!(p.parse_enum_declaration_flow(0, false).is_none());
    assert_eq!(p.errors, vec![ParseError { kind: ErrorKind::Expected(TokenKind::identifier), start: 9, end: 10 }]);
}

#[test]
fn enum_member_and_body_directly() {
    let mut p = flow_parser("A = \"s\" ,", true);
    let m = p.parse_enum_member_flow().unwrap();
    assert_eq!(m, member(0, EnumInit::String(2), 0, 7));
    assert_eq!(p.cur_kind(), TokenKind::comma);
    let mut p = flow_parser("{ A = 1n }", true);
    let b = p.parse_enum_body_flow(None, None).unwrap();
    assert_eq!(b.kind, EnumKind::BigInt);
    assert_eq!((b.start, b.end), (0, 10));
}

#[test]
fn enum_member_kinds_and_names() {
    assert_eq!(get_member_enum_kind_flow(&member(0, EnumInit::Defaulted, 0, 1)), None);
    assert_eq!(get_member_enum_kind_flow(&member(0, EnumInit::Boolean(true), 0, 1)), Some(EnumKind::Boolean));
    assert_eq!(get_member_enum_kind_flow(&member(0, EnumInit::Number(2, true), 0, 1)), Some(EnumKind::Number));
    assert_eq!(enum_kind_str_flow(EnumKind::String), "string");
    assert_eq!(enum_kind_str_flow(EnumKind::Number), "number");
    assert_eq!(enum_kind_str_flow(EnumKind::BigInt), "bigint");
    assert_eq!(enum_kind_str_flow(EnumKind::Boolean), "boolean");
    assert_eq!(enum_kind_str_flow(EnumKind::Symbol), "symbol");
}

#[test]
fn enum_initializer_error_report() {
    let mut p = flow_parser("A = ;", true);
    p.advance();
    p.advance();
    p.error_expected_enum_member_init();
    assert_eq!(p.errors, vec![ParseError { kind: ErrorKind::EnumMemberInitializerExpected, start: 4, end: 5 }]);
    assert_eq!(p.lexer.cur_index(), 2);
}

#[test]
fn component_and_hook_starts() {
    let mut p = flow_parser("component Foo", true);
    assert!(p.check_component_declaration_flow());
    assert_eq!(p.lexer.cur_index(), 0);
    let mut p = flow_parser("component\nFoo", true);
    assert!(!p.check_component_declaration_flow());
    let mut p = flow_parser("component (", true);
    assert!(!p.check_component_declaration_flow());
    let mut p = flow_parser("hook useFoo", true);
    assert!(p.check_hook_declaration_flow());
    let mut p = flow_parser("hooks useFoo", true);
    assert!(!p.check_hook_declaration_flow());
}

#[test]
fn async_component_and_hook_starts() {
    let mut p = flow_parser("async component Foo", true);
    assert!(p.check_async_component_flow());
    assert_eq!(p.lexer.cur_index(), 0);
    let mut p = flow_parser("async\ncomponent Foo", true);
    assert!(!p.check_async_component_flow());
    let mut p = flow_parser("async hook useFoo", true);
    assert!(p.check_async_hook_flow());
    let mut p = flow_parser("async component Foo", true);
    assert!(!p.check_async_hook_flow());
}

#[test]
fn record_starts_and_modifiers() {
    let mut p = flow_parser("record R", true);
    assert!(p.check_record_declaration_flow());
    let mut p = flow_parser("record (", true);
    assert!(!p.check_record_declaration_flow());
    let mut p = flow_parser("static x", true);
    assert!(p.is_record_modifier_keyword());
    let mut p = flow_parser("static :", true);
    assert!(!p.is_record_modifier_keyword());
    let mut p = flow_parser("static (", true);
    assert!(!p.is_record_modifier_keyword());
    let mut p = flow_parser("static\nx", true);
    assert!(!p.is_record_modifier_keyword());
}

#[test]
fn match_starts() {
    let mut p = flow_parser("match (", true);
    assert!(p.check_maybe_flow_match());
    let mut p = flow_parser("match\n(", true);
    assert!(!p.check_maybe_flow_match());
    let mut p = flow_parser("match x", true);
    assert!(!p.check_maybe_flow_match());
    let mut p = flow_parser("matches (", true);
    assert!(!p.check_maybe_flow_match());
}

#[test]
fn record_expression_starts() {
    let name = Expr { parens: 0, node: Node::Identifier(0), start: 0, end: 3 };
    let mut p = flow_parser("Foo {", true);
    p.advance();
    assert!(p.check_record_expression_flow(&name));
    let mut p = flow_parser("foo {", true);
    p.advance();
    assert!(!p.check_record_expression_flow(&name));
    let mut p = flow_parser("Foo\n{", true);
    p.advance();
    assert!(!p.check_record_expression_flow(&name));
    let member_expr = Expr { parens: 0,
        node: Node::MemberExpression {
            object: Box::new(Expr { parens: 0, node: Node::Identifier(0), start: 0, end: 1 }),
            property: Box::new(Expr { parens: 0, node: Node::Identifier(2), start: 2, end: 3 }),
            computed: false,
        },
        start: 0,
        end: 3,
    };
    let mut p = flow_parser("a b {", true);
    p.advance();
    p.advance();
    assert!(p.check_record_expression_flow(&member_expr));
    let lit = Expr { parens: 0, node: Node::NumericLiteral(0), start: 0, end: 1 };
    let mut p = flow_parser("1 {", true);
    p.advance();
    assert!(!p.check_record_expression_flow(&lit));
}

#[test]
fn variance_keyword_followers() {
    assert!(can_follow_variance_keyword_flow(Some(TokenKind::identifier)));
    assert!(can_follow_variance_keyword_flow(Some(TokenKind::l_square)));
    assert!(can_follow_variance_keyword_flow(Some(TokenKind::rw_class)));
    assert!(can_follow_variance_keyword_flow(Some(TokenKind::string_literal)));
    assert!(!can_follow_variance_keyword_flow(Some(TokenKind::colon)));
    assert!(!can_follow_variance_keyword_flow(None));
}

#[test]
fn ts_modifier_followers() {
    assert!(can_follow_modifier_ts(Some(TokenKind::identifier)));
    assert!(can_follow_modifier_ts(Some(TokenKind::rw_static)));
    assert!(can_follow_modifier_ts(Some(TokenKind::rw_private)));
    assert!(!can_follow_modifier_ts(Some(TokenKind::l_paren)));
    assert!(!can_follow_modifier_ts(None));
}

#[test]
fn class_element_name_tests() {
    let p = flow_parser("(", false);
    assert!(p.check_class_element_after_accessor_name());
    assert!(p.check_class_element_after_async_name());
    let p = flow_parser("*", false);
    assert!(p.check_class_element_after_accessor_name());
    assert!(!p.check_class_element_after_async_name());
    let p = flow_parser("foo", false);
    assert!(!p.check_class_element_after_accessor_name());
    assert!(!p.check_class_element_after_async_name());
}

#[test]
fn static_as_property_name() {
    let p = flow_parser("=", false);
    assert!(p.static_is_property_name());
    let p = flow_parser("<", false);
    assert!(!p.static_is_property_name());
    let p = flow_parser("<", true);
    assert!(p.static_is_property_name());
    let p = flow_parser(":", true);
    assert!(p.static_is_property_name());
    let p = flow_parser("foo", true);
    assert!(!p.static_is_property_name());
}

#[test]
fn interface_extends_entries() {
    let mut p = flow_parser("A . B < T > ,", true);
    let mut extends: Vec<Expr> = Vec::new();
    assert!(p.parse_interface_extends(&mut extends));
    assert_eq!(extends.len(), 1);
    assert_eq!((extends[0].start, extends[0].end), (0, 11));
    match &extends[0].node {
        Node::InterfaceExtends { id, type_parameters: Some(args) } => {
            assert!(matches!(id.node, Node::QualifiedTypeIdentifier { .. }));
            assert_eq!((args.start, args.end), (6, 11));
        },
        _ => panic!("not an extends entry"),
    }
    assert_eq!(p.cur_kind(), TokenKind::comma);
    let mut p = flow_parser("A . ;", true);
    assert!(!p.parse_interface_extends(&mut extends));
    assert_eq!(extends.len(), 1);
    assert_eq!(p.errors, vec![ParseError { kind: ErrorKind::Expected(TokenKind::identifier), start: 4, end: 5 }]);
}
