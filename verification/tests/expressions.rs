use lib::js::expressions::{Expr, Node, NodeList, OfEndsAssignment};
use lib::js::flow::types::{PrimitiveType, UnsupportedSyntax};
use lib::js::{ErrorKind, JSParserImpl, ParseError, ParserOptions};
use lib::lexer::{JSLexer, Token};
use lib::token_kinds::{binop_precedence, is_reserved_word, TokenKind};

/// The kind of a token written as `w` in a test source.
fn kind_of(w: &str) -> TokenKind {
    match w {
        "+" => TokenKind::plus,
        "-" => TokenKind::minus,
        "*" => TokenKind::star,
        "/" => TokenKind::slash,
        "%" => TokenKind::percent,
        "**" => TokenKind::starstar,
        "??" => TokenKind::questionquestion,
        "||" => TokenKind::pipepipe,
        "&&" => TokenKind::ampamp,
        "|" => TokenKind::pipe,
        "^" => TokenKind::caret,
        "&" => TokenKind::amp,
        "==" => TokenKind::equalequal,
        "!=" => TokenKind::exclaimequal,
        "===" => TokenKind::equalequalequal,
        "<" => TokenKind::less,
        "function" => TokenKind::rw_function,
        "new" => TokenKind::rw_new,
        ">" => TokenKind::greater,
        "<=" => TokenKind::lessequal,
        "<<" => TokenKind::lessless,
        "=" => TokenKind::equal,
        "+=" => TokenKind::plusequal,
        "," => TokenKind::comma,
        ";" => TokenKind::semi,
        ":" => TokenKind::colon,
        "?" => TokenKind::question,
        "=>" => TokenKind::equalgreater,
        "yield" => TokenKind::rw_yield,
        "." => TokenKind::period,
        "(" => TokenKind::l_paren,
        ")" => TokenKind::r_paren,
        "..." => TokenKind::dotdotdot,
        "{" => TokenKind::l_brace,
        "}" => TokenKind::r_brace,
        "{|" => TokenKind::l_bracepipe,
        "[" => TokenKind::l_square,
        "!" => TokenKind::exclaim,
        "~" => TokenKind::tilde,
        "++" => TokenKind::plusplus,
        "--" => TokenKind::minusminus,
        "in" => TokenKind::rw_in,
        "instanceof" => TokenKind::rw_instanceof,
        "typeof" => TokenKind::rw_typeof,
        "void" => TokenKind::rw_void,
        "delete" => TokenKind::rw_delete,
        "null" => TokenKind::rw_null,
        "true" => TokenKind::rw_true,
        "false" => TokenKind::rw_false,
        "this" => TokenKind::rw_this,
        "const" => TokenKind::rw_const,
        "extends" => TokenKind::rw_extends,
        "interface" => TokenKind::rw_interface,
        _ => {
            let c = w.as_bytes()[0];
            if c.is_ascii_digit() {
                if w.ends_with('n') {
                    TokenKind::bigint_literal
                } else {
                    TokenKind::numeric_literal
                }
            } else if c == b'"' {
                TokenKind::string_literal
            } else if c == b'#' {
                TokenKind::private_identifier
            } else {
                TokenKind::identifier
            }
        },
    }
}

/// The tokens of `src`, whose tokens are separated by blanks; a line break
/// marks the next token.
fn lex(src: &str) -> Vec<Token> {
    let bytes = src.as_bytes();
    let mut toks = Vec::new();
    let mut i = 0;
    let mut nl = false;
    while i < bytes.len() {
        if bytes[i] == b' ' {
            i += 1;
            continue;
        }
        if bytes[i] == b'\n' {
            nl = true;
            i += 1;
            continue;
        }
        let start = i;
        while i < bytes.len() && bytes[i] != b' ' && bytes[i] != b'\n' {
            i += 1;
        }
        let w = &src[start..i];
        let kind = kind_of(w);
        let value = match kind {
            TokenKind::string_literal => w[1..w.len() - 1].as_bytes().to_vec(),
            TokenKind::private_identifier => w[1..].as_bytes().to_vec(),
            _ => w.as_bytes().to_vec(),
        };
        toks.push(Token { kind, value, start, end: i, new_line_before: nl });
        nl = false;
    }
    toks.push(Token {
        kind: TokenKind::eof,
        value: Vec::new(),
        start: bytes.len(),
        end: bytes.len(),
        new_line_before: nl,
    });
    toks
}

fn parser_with(src: &str, parse_flow: bool, parse_ts: bool) -> JSParserImpl {
    let lexer = JSLexer::new(lex(src)).unwrap();
    JSParserImpl::new(
        lexer,
        ParserOptions {
            parse_flow,
            parse_ts,
            parse_flow_component_syntax: false,
            parse_flow_records: false,
            param_await: false,
            param_yield: false,
            strict_mode: false,
        },
    )
}

fn spell(k: TokenKind) -> &'static str {
    match k {
        TokenKind::plus => "+",
        TokenKind::minus => "-",
        TokenKind::star => "*",
        TokenKind::slash => "/",
        TokenKind::starstar => "**",
        TokenKind::questionquestion => "??",
        TokenKind::pipepipe => "||",
        TokenKind::ampamp => "&&",
        TokenKind::pipe => "|",
        TokenKind::amp => "&",
        TokenKind::equalequal => "==",
        TokenKind::less => "<",
        TokenKind::lessless => "<<",
        TokenKind::rw_in => "in",
        TokenKind::rw_instanceof => "instanceof",
        TokenKind::rw_typeof => "typeof",
        TokenKind::exclaim => "!",
        TokenKind::plusplus => "++",
        TokenKind::minusminus => "--",
        _ => "?op",
    }
}

/// A bracketed rendering of a tree over the tokens `src` was split into.
fn show(src: &str, e: &Expr) -> String {
    let toks = lex(src);
    let text = |i: usize| src[toks[i].start..toks[i].end].to_string();
    match &e.node {
        Node::Identifier(i) | Node::NumericLiteral(i) | Node::StringLiteral(i)
        | Node::BigIntLiteral(i) | Node::PrivateName(i) => text(*i),
        Node::BooleanLiteral(b) => format!("{}", b),
        Node::NullLiteral => "null".to_string(),
        Node::ThisExpression => "this".to_string(),
        Node::UnaryExpression { operator, argument } => {
            format!("({} {})", spell(*operator), show(src, argument))
        },
        Node::UpdateExpression { operator, argument, prefix } => if *prefix {
            format!("({} {})", spell(*operator), show(src, argument))
        } else {
            format!("({} {})", show(src, argument), spell(*operator))
        },
        Node::BinaryExpression { operator, left, right }
        | Node::LogicalExpression { operator, left, right } => {
            format!("({} {} {})", spell(*operator), show(src, left), show(src, right))
        },
        Node::AsExpression { expression, type_annotation } => {
            format!("(as {} {})", show(src, expression), show(src, type_annotation))
        },
        Node::AsConstExpression { expression } => format!("(as-const {})", show(src, expression)),
        Node::TSAsExpression { expression, type_annotation } => {
            format!("(ts-as {} {})", show(src, expression), show(src, type_annotation))
        },
        Node::AwaitExpression { argument } => format!("(await {})", show(src, argument)),
        Node::AssignmentExpression { left, right, .. } => format!("(= {} {})", show(src, left), show(src, right)),
        Node::ConditionalExpression { test, consequent, alternate } => {
            format!("(? {} {} {})", show(src, test), show(src, consequent), show(src, alternate))
        },
        Node::MemberExpression { object, property, .. } => {
            format!("{}.{}", show(src, object), show(src, property))
        },
        Node::QualifiedTypeIdentifier { qualification, id } => {
            format!("{}.{}", show(src, qualification), show(src, id))
        },
        Node::GenericTypeAnnotation { id, type_parameters } => match type_parameters {
            None => show(src, id),
            Some(args) => format!("{}{}", show(src, id), show(src, args)),
        },
        Node::TypeParameterInstantiation { params } => {
            let mut parts = Vec::new();
            let mut l = params;
            while let NodeList::Cons(t, rest) = l {
                parts.push(show(src, t));
                l = rest;
            }
            format!("<{}>", parts.join(", "))
        },
        Node::ExistsTypeAnnotation => "*".to_string(),
        Node::PrimitiveTypeAnnotation(k, _) => format!("{:?}", k),
        Node::NullLiteralTypeAnnotation => "null-type".to_string(),
        Node::VoidTypeAnnotation => "void-type".to_string(),
        Node::StringLiteralTypeAnnotation(i) | Node::NumberLiteralTypeAnnotation(i)
        | Node::BigIntLiteralTypeAnnotation(i) => format!("'{}", text(*i)),
        Node::BooleanLiteralTypeAnnotation(b) => format!("'{}", b),
        Node::TypeAnnotation { type_annotation } => format!(": {}", show(src, type_annotation)),
        _ => "?".to_string(),
    }
}

/// Parse `src` as a binary expression; the rendering of the result, the
/// diagnostics and the index of the token the parser stopped at.
fn binary(src: &str, param_in: bool, flow: bool, ts: bool) -> (Option<String>, Vec<ParseError>, usize, Option<Expr>) {
    let mut p = parser_with(src, flow, ts);
    let r = p.parse_binary_expression(param_in);
    let shown = r.as_ref().map(|e| show(src, e));
    (shown, p.errors.clone(), p.lexer.cur_index(), r)
}

#[test]
fn binary_multiplication_binds_tighter() {
    let (s, errs, pos, r) = binary("a + b * c", true, false, false);
    assert_eq!(s.unwrap(), "(+ a (* b c))");
    assert!(errs.is_empty());
    assert_eq!(pos, 5);
    let e = r.unwrap();
    assert_eq!((e.start, e.end), (0, 9));
}

#[test]
fn binary_left_assoc_subtraction() {
    let (s, _, _, _) = binary("a - b - c", true, false, false);
    assert_eq!(s.unwrap(), "(- (- a b) c)");
}

#[test]
fn binary_exponent_is_right_assoc() {
    let (s, _, _, _) = binary("a ** b ** c", true, false, false);
    assert_eq!(s.unwrap(), "(** a (** b c))");
}

#[test]
fn binary_mixed_levels() {
    let (s, _, _, _) = binary("a * b + c * d << e", true, false, false);
    assert_eq!(s.unwrap(), "(<< (+ (* a b) (* c d)) e)");
    let (s, _, _, _) = binary("a < b == c & d | e", true, false, false);
    assert_eq!(s.unwrap(), "(| (& (== (< a b) c) d) e)");
}

#[test]
fn binary_logical_nodes() {
    let (s, errs, _, r) = binary("a && b || c", true, false, false);
    assert_eq!(s.unwrap(), "(|| (&& a b) c)");
    assert!(errs.is_empty());
    assert!(matches!(r.unwrap().node, Node::LogicalExpression { operator: TokenKind::pipepipe, .. }));
}

#[test]
fn binary_nullish_chain_reports_nothing() {
    let (s, errs, _, _) = binary("a ?? b ?? c", true, false, false);
    assert_eq!(s.unwrap(), "(?? (?? a b) c)");
    assert!(errs.is_empty());
}

#[test]
fn binary_mixing_nullish_with_or() {
    let (s, errs, _, _) = binary("a ?? b || c", true, false, false);
    assert_eq!(s.unwrap(), "(?? a (|| b c))");
    assert_eq!(errs, vec![ParseError { kind: ErrorKind::MixingNullishAndLogical, start: 0, end: 11 }]);
    let (s, errs, _, _) = binary("a || b ?? c", true, false, false);
    assert_eq!(s.unwrap(), "(?? (|| a b) c)");
    assert_eq!(errs, vec![ParseError { kind: ErrorKind::MixingNullishAndLogical, start: 0, end: 11 }]);
}

#[test]
fn binary_private_name_left_of_in() {
    let (s, errs, _, _) = binary("#x in y", true, false, false);
    assert_eq!(s.unwrap(), "(in #x y)");
    assert!(errs.is_empty());
}

#[test]
fn binary_private_name_elsewhere_is_reported() {
    let (s, errs, _, _) = binary("#x + y", true, false, false);
    assert_eq!(s.unwrap(), "(+ #x y)");
    assert_eq!(errs, vec![ParseError { kind: ErrorKind::PrivateNameNotInLhs, start: 0, end: 2 }]);
    let (s, errs, _, _) = binary("a + #x in y", true, false, false);
    assert_eq!(s.unwrap(), "(in (+ a #x) y)");
    assert_eq!(errs, vec![ParseError { kind: ErrorKind::PrivateNameNotInLhs, start: 4, end: 6 }]);
}

#[test]
fn binary_in_excluded_without_param_in() {
    let (s, errs, pos, _) = binary("a in b", false, false, false);
    assert_eq!(s.unwrap(), "a");
    assert!(errs.is_empty());
    assert_eq!(pos, 1);
    let (s, _, _, _) = binary("a in b", true, false, false);
    assert_eq!(s.unwrap(), "(in a b)");
}

#[test]
fn binary_unary_before_exponent() {
    let (s, errs, _, _) = binary("- a ** b", true, false, false);
    assert_eq!(s.unwrap(), "(** (- a) b)");
    assert_eq!(errs, vec![ParseError { kind: ErrorKind::UnaryBeforeExponent, start: 0, end: 6 }]);
    let (s, errs, _, _) = binary("++ a ** b", true, false, false);
    assert_eq!(s.unwrap(), "(** (++ a) b)");
    assert!(errs.is_empty());
}

#[test]
fn binary_postfix_needs_same_line() {
    let (s, _, pos, r) = binary("a ++ + b", true, false, false);
    assert_eq!(s.unwrap(), "(+ (a ++) b)");
    assert_eq!(pos, 4);
    assert_eq!(r.unwrap().end, 8);
    let (s, _, pos, _) = binary("a\n++ b", true, false, false);
    assert_eq!(s.unwrap(), "a");
    assert_eq!(pos, 1);
}

#[test]
fn binary_unary_operands() {
    let (s, _, _, _) = binary("! a && typeof b", true, false, false);
    assert_eq!(s.unwrap(), "(&& (! a) (typeof b))");
}

#[test]
fn binary_missing_operand_fails() {
    let (s, errs, pos, _) = binary("1 + )", true, false, false);
    assert!(s.is_none());
    assert_eq!(errs, vec![ParseError { kind: ErrorKind::InvalidExpression, start: 4, end: 4 }]);
    assert_eq!(pos, 2);
}

#[test]
fn binary_flow_as_expression() {
    let (s, errs, _, r) = binary("x as T", true, true, false);
    assert_eq!(s.unwrap(), "(as x T)");
    assert!(errs.is_empty());
    let e = r.unwrap();
    assert_eq!((e.start, e.end), (0, 6));
    let (s, _, _, _) = binary("x as number || y", true, true, false);
    assert_eq!(s.unwrap(), "(|| (as x Number) y)");
    let (s, _, _, _) = binary("x as Array < string >", true, true, false);
    assert_eq!(s.unwrap(), "(as x Array<String>)");
}

#[test]
fn binary_flow_as_const() {
    let (s, _, _, r) = binary("x as const", true, true, false);
    assert_eq!(s.unwrap(), "(as-const x)");
    assert_eq!(r.unwrap().end, 10);
}

#[test]
fn binary_ts_as_expression() {
    let (s, _, _, _) = binary("x as const", true, false, true);
    assert_eq!(s.unwrap(), "(ts-as x const)");
    let (s, _, _, _) = binary("x as T", true, false, true);
    assert_eq!(s.unwrap(), "(ts-as x T)");
}

#[test]
fn binary_as_is_a_name_without_types() {
    let (s, _, pos, _) = binary("x as T", true, false, false);
    assert_eq!(s.unwrap(), "x");
    assert_eq!(pos, 1);
}

#[test]
fn binary_as_with_bad_type_fails() {
    let (s, errs, _, _) = binary("x as (", true, true, false);
    assert!(s.is_none());
    assert_eq!(
        errs,
        vec![ParseError {
            kind: ErrorKind::Unsupported(lib::js::flow::types::UnsupportedSyntax::GroupType),
            start: 5,
            end: 6,
        }],
    );
}

#[test]
fn primary_expression_literals() {
    let src = "this";
    let mut p = parser_with(src, false, false);
    let e = p.parse_primary_expression().unwrap();
    assert_eq!(e, Expr { parens: 0, node: Node::ThisExpression, start: 0, end: 4 });
    let mut p = parser_with("\"s\"", false, false);
    let e = p.parse_primary_expression().unwrap();
    assert_eq!(e, Expr { parens: 0, node: Node::StringLiteral(0), start: 0, end: 3 });
    let mut p = parser_with("10n", false, false);
    assert_eq!(p.parse_primary_expression().unwrap().node, Node::BigIntLiteral(0));
    let mut p = parser_with("false", false, false);
    assert_eq!(p.parse_primary_expression().unwrap().node, Node::BooleanLiteral(false));
    let mut p = parser_with("null", false, false);
    assert_eq!(p.parse_primary_expression().unwrap().node, Node::NullLiteral);
}

#[test]
fn primary_expression_rejects_punctuator() {
    let mut p = parser_with(";", false, false);
    assert!(p.parse_primary_expression().is_none());
    assert_eq!(p.errors, vec![ParseError { kind: ErrorKind::InvalidExpression, start: 0, end: 0 }]);
    assert_eq!(p.lexer.cur_index(), 0);
}

#[test]
fn primary_expression_forms_not_parsed() {
    for (src, u) in [
        ("( - a )", UnsupportedSyntax::ParenthesizedExpression),
        ("( a + b )", UnsupportedSyntax::ParenthesizedExpression),
        ("new X", UnsupportedSyntax::NewExpression),
        ("[ a ]", UnsupportedSyntax::ArrayLiteral),
        ("{ }", UnsupportedSyntax::ObjectLiteral),
        ("async function f ( ) { }", UnsupportedSyntax::FunctionExpression),
    ] {
        let mut p = parser_with(src, false, false);
        assert!(p.parse_primary_expression().is_none());
        assert_eq!(p.errors.len(), 1);
        assert_eq!(p.errors[0].kind, ErrorKind::Unsupported(u));
    }
    let mut p = parser_with("< div >", false, false);
    assert!(p.parse_primary_expression().is_none());
    assert_eq!(p.errors, vec![ParseError { kind: ErrorKind::PossibleJsx, start: 0, end: 0 }]);
}

#[test]
fn primary_expression_empty_parens_and_regexp() {
    let mut p = parser_with("( ) => x", false, false);
    let e = p.parse_primary_expression().unwrap();
    assert_eq!(e, Expr { parens: 0, node: Node::CoverEmptyArgs, start: 0, end: 3 });
    assert_eq!(p.lexer.cur_index(), 2);
    let mut p = parser_with("async", false, false);
    assert_eq!(p.parse_primary_expression().unwrap().node, Node::Identifier(0));
    let toks = vec![
        Token { kind: TokenKind::regexp_literal, value: b"a+".to_vec(), start: 0, end: 4, new_line_before: false },
        Token { kind: TokenKind::eof, value: Vec::new(), start: 4, end: 4, new_line_before: false },
    ];
    let mut p = JSParserImpl::new(
        JSLexer::new(toks).unwrap(),
        ParserOptions {
            parse_flow: false,
            parse_ts: false,
            parse_flow_component_syntax: false,
            parse_flow_records: false,
            param_await: false,
            param_yield: false,
            strict_mode: false,
        },
    );
    assert_eq!(p.parse_primary_expression().unwrap(), Expr { parens: 0, node: Node::RegExpLiteral(0), start: 0, end: 4 });
}

#[test]
fn precedence_table() {
    assert_eq!(JSParserImpl::get_precedence(TokenKind::questionquestion), 1);
    assert_eq!(JSParserImpl::get_precedence(TokenKind::plus), 10);
    assert_eq!(JSParserImpl::get_precedence(TokenKind::starstar), 12);
    assert_eq!(JSParserImpl::get_precedence(TokenKind::rw_in), 8);
    assert_eq!(JSParserImpl::get_precedence(TokenKind::as_operator), 8);
    assert_eq!(JSParserImpl::get_precedence(TokenKind::comma), 0);
    assert_eq!(JSParserImpl::get_precedence_except(TokenKind::rw_in, TokenKind::rw_in), 0);
    assert_eq!(JSParserImpl::get_precedence_except(TokenKind::plus, TokenKind::rw_in), 10);
    assert!(!JSParserImpl::is_left_assoc(TokenKind::starstar));
    assert!(JSParserImpl::is_left_assoc(TokenKind::minus));
    assert_eq!(binop_precedence(TokenKind::lessless), Some(9));
    assert_eq!(binop_precedence(TokenKind::rw_in), None);
}

#[test]
fn reserved_words() {
    assert!(is_reserved_word(TokenKind::rw_yield));
    assert!(is_reserved_word(TokenKind::rw_const));
    assert!(!is_reserved_word(TokenKind::identifier));
    assert!(!is_reserved_word(TokenKind::as_operator));
}

#[test]
fn assignment_operator_tests() {
    let p = parser_with("+=", false, false);
    assert!(p.check_assign());
    let p = parser_with("==", false, false);
    assert!(!p.check_assign());
}

#[test]
fn end_of_assignment_tests() {
    let p = parser_with("of", false, false);
    assert!(p.check_end_assignment_expression(OfEndsAssignment::Yes));
    assert!(!p.check_end_assignment_expression(OfEndsAssignment::No));
    let p = parser_with(")", false, false);
    assert!(p.check_end_assignment_expression(OfEndsAssignment::No));
    let p = parser_with("x", false, false);
    assert!(!p.check_end_assignment_expression(OfEndsAssignment::Yes));
}

#[test]
fn as_conversion_needs_types() {
    let mut p = parser_with("as", true, false);
    p.convert_ident_op_if_possible();
    assert_eq!(p.cur_kind(), TokenKind::as_operator);
    let mut p = parser_with("as", false, false);
    p.convert_ident_op_if_possible();
    assert_eq!(p.cur_kind(), TokenKind::identifier);
    let mut p = parser_with("is", false, true);
    p.convert_ident_op_if_possible();
    assert_eq!(p.cur_kind(), TokenKind::identifier);
}

#[test]
fn unescaped_and_plain_names() {
    let p = parser_with("async", false, false);
    assert!(p.check_unescaped_name(b"async"));
    assert!(p.check_name(b"async"));
    let mut toks = lex("async");
    toks[0].end = 10;
    let p = JSParserImpl::new(
        JSLexer::new(toks).unwrap(),
        ParserOptions { parse_flow: false, parse_ts: false, parse_flow_component_syntax: false, parse_flow_records: false, param_await: false, param_yield: false, strict_mode: false },
    );
    assert!(!p.check_unescaped_name(b"async"));
    assert!(p.check_name(b"async"));
}

#[test]
fn make_as_node_kinds() {
    let src = "x as const";
    let p = parser_with(src, true, false);
    let left = Expr { parens: 0, node: Node::Identifier(0), start: 0, end: 1 };
    let ty = || Expr { parens: 0,
        node: Node::GenericTypeAnnotation {
            id: Box::new(Expr { parens: 0, node: Node::Identifier(2), start: 5, end: 10 }),
            type_parameters: None,
        },
        start: 5,
        end: 10,
    };
    let left2 = Expr { parens: 0, node: Node::Identifier(0), start: 0, end: 1 };
    let r = p.make_as_node(left, ty(), 0, 10);
    assert_eq!(r.node, Node::AsConstExpression { expression: Box::new(left2) });
    let other = Expr { parens: 0, node: Node::PrimitiveTypeAnnotation(PrimitiveType::Number, 2), start: 5, end: 10 };
    let r = p.make_as_node(Expr { parens: 0, node: Node::Identifier(0), start: 0, end: 1 }, other, 0, 10);
    assert!(matches!(r.node, Node::AsExpression { .. }));
    let p = parser_with(src, false, true);
    let r = p.make_as_node(Expr { parens: 0, node: Node::Identifier(0), start: 0, end: 1 }, ty(), 0, 10);
    assert!(matches!(r.node, Node::TSAsExpression { .. }));
}

#[test]
fn new_bin_node_tracks_families() {
    let mut p = parser_with("a", false, false);
    let mut has_nullish = false;
    let mut has_boolean = false;
    let leaf = |i: usize| Expr { parens: 0, node: Node::Identifier(i), start: i, end: i + 1 };
    let r = p.new_bin_node(TokenKind::ampamp, leaf(0), leaf(2), 0, 3, &mut has_nullish, &mut has_boolean);
    assert!(matches!(r.node, Node::LogicalExpression { .. }));
    assert!(has_boolean && !has_nullish);
    assert!(p.errors.is_empty());
    let _ = p.new_bin_node(TokenKind::questionquestion, r, leaf(4), 0, 5, &mut has_nullish, &mut has_boolean);
    assert!(has_nullish);
    assert_eq!(p.errors, vec![ParseError { kind: ErrorKind::MixingNullishAndLogical, start: 0, end: 5 }]);
    let r = p.new_bin_node(TokenKind::plus, leaf(0), leaf(2), 0, 3, &mut has_nullish, &mut has_boolean);
    assert!(matches!(r.node, Node::BinaryExpression { operator: TokenKind::plus, .. }));
    assert_eq!(p.errors.len(), 1);
}

#[test]
fn await_inside_async_functions() {
    let src = "await x + 1";
    let mut p = parser_with(src, false, false);
    p.options.param_await = true;
    let r = p.parse_binary_expression(true).unwrap();
    assert_eq!(show(src, &r), "(+ (await x) 1)");
    assert!(p.errors.is_empty());
    let mut p = parser_with("await await x", false, false);
    p.options.param_await = true;
    let r = p.parse_unary_expression().unwrap();
    assert_eq!(show("await await x", &r), "(await (await x))");
    assert_eq!((r.start, r.end), (0, 13));
}

#[test]
fn await_is_a_name_outside_async_functions() {
    let (s, _, pos, _) = binary("await x", true, false, false);
    assert_eq!(s.unwrap(), "await");
    assert_eq!(pos, 1);
}

#[test]
fn primary_expression_parenthesized() {
    let mut p = parser_with("( ( a ) ) + b", false, false);
    let e = p.parse_primary_expression().unwrap();
    assert_eq!(e, Expr { parens: 2, node: Node::Identifier(2), start: 4, end: 5 });
    assert_eq!(p.lexer.cur_index(), 5);
    let mut p = parser_with("( a . b )", false, false);
    let e = p.parse_primary_expression().unwrap();
    assert!(matches!(e.node, Node::MemberExpression { computed: false, .. }));
    assert_eq!((e.start, e.end, e.parens), (2, 7, 1));
    let mut p = parser_with("( a", false, false);
    assert!(p.parse_primary_expression().is_none());
    assert_eq!(p.errors, vec![ParseError { kind: ErrorKind::Expected(TokenKind::r_paren), start: 3, end: 3 }]);
}

#[test]
fn member_chains_in_operands() {
    let (s, errs, _, _) = binary("a . b + c . d . e", true, false, false);
    assert!(errs.is_empty());
    assert_eq!(s.unwrap(), "(+ a.b c.d.e)");
    let (s, errs, _, _) = binary("( a ) * ( b . c )", true, false, false);
    assert!(errs.is_empty());
    assert_eq!(s.unwrap(), "(* a b.c)");
    for (src, u, at) in [
        ("f ( x ) * 2", UnsupportedSyntax::CallExpression, 2),
        ("a [ 0 ] + 1", UnsupportedSyntax::ComputedMember, 2),
    ] {
        let (s, errs, _, _) = binary(src, true, false, false);
        assert!(s.is_none());
        assert_eq!(errs, vec![ParseError { kind: ErrorKind::Unsupported(u), start: at, end: at + 1 }]);
    }
    let (s, errs, _, _) = binary("a . + b", true, false, false);
    assert!(s.is_none());
    assert_eq!(errs, vec![ParseError { kind: ErrorKind::Expected(TokenKind::identifier), start: 4, end: 5 }]);
}

fn assignment(src: &str) -> (Option<String>, Vec<ParseError>, usize) {
    let mut p = parser_with(src, false, false);
    let r = p.parse_assignment_expression(true);
    (r.map(|e| show(src, &e)), p.errors.clone(), p.lexer.cur_index())
}

#[test]
fn assignment_chains_group_right() {
    let (s, errs, pos) = assignment("a = b = c + 1 ;");
    assert!(errs.is_empty());
    assert_eq!(s.unwrap(), "(= a (= b (+ c 1)))");
    assert_eq!(pos, 7);
    let (s, _, _) = assignment("a . b += 2");
    assert_eq!(s.unwrap(), "(= a.b 2)");
    let (s, _, _) = assignment("a + b");
    assert_eq!(s.unwrap(), "(+ a b)");
}

#[test]
fn conditional_expressions() {
    let (s, errs, _) = assignment("a ? b : c = d ;");
    assert!(errs.is_empty());
    assert_eq!(s.unwrap(), "(? a b (= c d))");
    let (s, _, _) = assignment("x = a ? b : c");
    assert_eq!(s.unwrap(), "(= x (? a b c))");
    let (s, errs, _) = assignment("a ? b ;");
    assert!(s.is_none());
    assert_eq!(errs, vec![ParseError { kind: ErrorKind::Expected(TokenKind::colon), start: 6, end: 7 }]);
}

#[test]
fn assignment_errors() {
    let (s, errs, _) = assignment("a = b c");
    assert!(s.is_none());
    assert_eq!(errs, vec![ParseError { kind: ErrorKind::UnexpectedAfterAssignment, start: 6, end: 7 }]);
    let (s, errs, _) = assignment("x => x");
    assert!(s.is_none());
    assert_eq!(errs, vec![ParseError { kind: ErrorKind::Unsupported(UnsupportedSyntax::ArrowFunction), start: 2, end: 4 }]);
    let mut p = JSParserImpl::new(
        JSLexer::new(lex("yield x")).unwrap(),
        ParserOptions {
            parse_flow: false,
            parse_ts: false,
            parse_flow_component_syntax: false,
            parse_flow_records: false,
            param_await: false,
            param_yield: true,
            strict_mode: false,
        },
    );
    assert!(p.parse_assignment_expression(true).is_none());
    assert_eq!(p.errors, vec![ParseError { kind: ErrorKind::Unsupported(UnsupportedSyntax::YieldExpression), start: 0, end: 5 }]);
    let (s, errs, _) = assignment("a ?? b || c = d");
    assert!(s.is_some());
    assert_eq!(errs, vec![ParseError { kind: ErrorKind::MixingNullishAndLogical, start: 0, end: 11 }]);
}

fn arrow_params(p: &mut JSParserImpl, node: Expr) -> (bool, Vec<Expr>) {
    let mut ps = Vec::new();
    let mut is_async = false;
    let ok = p.reparse_arrow_parameters(node, &mut ps, &mut is_async);
    assert!(!is_async);
    (ok, ps)
}

fn id(i: usize, s: usize) -> Expr {
    Expr { parens: 0, node: Node::Identifier(i), start: s, end: s + 1 }
}

#[test]
fn arrow_parameters_from_covers() {
    let mut p = parser_with("( a )", false, false);
    let e = p.parse_primary_expression().unwrap();
    let (ok, ps) = arrow_params(&mut p, e);
    assert!(ok);
    assert_eq!(ps, vec![id(1, 2)]);
    let mut p = parser_with("( )", false, false);
    let e = p.parse_primary_expression().unwrap();
    assert_eq!(arrow_params(&mut p, e), (true, vec![]));
    let mut p = parser_with("a", false, false);
    assert_eq!(arrow_params(&mut p, id(0, 0)), (true, vec![id(0, 0)]));
    let mut p = parser_with("( ( a ) )", false, false);
    let e = p.parse_primary_expression().unwrap();
    let (ok, ps) = arrow_params(&mut p, e);
    assert!(!ok && ps.is_empty());
    assert_eq!(p.errors, vec![ParseError { kind: ErrorKind::InvalidArrowParameters, start: 4, end: 5 }]);
}

#[test]
fn arrow_parameters_from_sequence() {
    let mut p = parser_with("a b c d", false, false);
    let default = Expr {
        parens: 0,
        node: Node::AssignmentExpression { operator: TokenKind::equal, left: Box::new(id(1, 2)), right: Box::new(id(2, 6)) },
        start: 2,
        end: 7,
    };
    let rest = Expr { parens: 0, node: Node::SpreadElement { argument: Box::new(id(3, 12)) }, start: 9, end: 13 };
    let list = NodeList::Cons(
        Box::new(id(0, 0)),
        Box::new(NodeList::Cons(Box::new(default), Box::new(NodeList::Cons(Box::new(rest), Box::new(NodeList::Nil))))),
    );
    let seq = Expr { parens: 1, node: Node::SequenceExpression { expressions: list }, start: 0, end: 13 };
    let (ok, ps) = arrow_params(&mut p, seq);
    assert!(ok);
    assert!(p.errors.is_empty());
    assert_eq!(ps.len(), 3);
    assert!(matches!(ps[1].node, Node::AssignmentPattern { .. }));
    assert!(matches!(ps[2].node, Node::RestElement { .. }));
    let rest = Expr { parens: 0, node: Node::SpreadElement { argument: Box::new(id(3, 12)) }, start: 9, end: 13 };
    let list = NodeList::Cons(Box::new(rest), Box::new(NodeList::Cons(Box::new(id(0, 0)), Box::new(NodeList::Nil))));
    let seq = Expr { parens: 1, node: Node::SequenceExpression { expressions: list }, start: 0, end: 13 };
    let mut p = parser_with("a b c d", false, false);
    let (ok, ps) = arrow_params(&mut p, seq);
    assert!(ok);
    assert_eq!(ps, vec![id(0, 0)]);
    assert_eq!(p.errors, vec![ParseError { kind: ErrorKind::RestParameterNotLast, start: 9, end: 13 }]);
}

#[test]
fn comma_expressions() {
    let src = "a , b = c , d ;";
    let mut p = parser_with(src, false, false);
    let e = p.parse_expression(true).unwrap();
    assert!(p.errors.is_empty());
    assert_eq!((e.start, e.end), (0, 13));
    match &e.node {
        Node::SequenceExpression { expressions: NodeList::Cons(a, rest) } => {
            assert_eq!(show(src, a), "a");
            match &**rest {
                NodeList::Cons(b, rest2) => {
                    assert_eq!(show(src, b), "(= b c)");
                    assert!(matches!(&**rest2, NodeList::Cons(_, _)));
                },
                _ => panic!("too short"),
            }
        },
        _ => panic!("not a sequence"),
    }
    let mut p = parser_with("a + 1", false, false);
    assert_eq!(show("a + 1", &p.parse_expression(true).unwrap()), "(+ a 1)");
    let mut p = parser_with("a , )", false, false);
    match p.parse_expression(true).unwrap().node {
        Node::SequenceExpression { expressions: NodeList::Cons(_, rest) } => match *rest {
            NodeList::Cons(c, _) => assert_eq!(*c, Expr { parens: 0, node: Node::CoverTrailingComma, start: 2, end: 4 }),
            _ => panic!("no cover"),
        },
        _ => panic!("not a sequence"),
    }
    assert_eq!(p.lexer.cur_index(), 2);
    let mut p = parser_with("a , ... b", false, false);
    assert!(p.parse_expression(true).is_none());
    assert_eq!(p.errors, vec![ParseError { kind: ErrorKind::Unsupported(UnsupportedSyntax::RestElement), start: 4, end: 7 }]);
}
