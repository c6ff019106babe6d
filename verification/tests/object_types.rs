use lib::js::expressions::{Expr, Node, NodeList};
use lib::js::classes::{ClassElementSpecial, ClassMethodShape, ClassPropertyShape, MethodKind};
use lib::js::flow::declarations::FlowDeclaration;
use lib::js::flow::match_::BindingKind;
use lib::js::flow::object_types::{MappedTypeOptional, PropertyKind};
use lib::js::flow::params::VarianceKind;
use lib::js::flow::types::UnsupportedSyntax;
use lib::js::{ErrorKind, JSParserImpl, ParseError, ParserOptions};
use lib::lexer::{JSLexer, Token};
use lib::token_kinds::TokenKind;

/// The kind of a token written as `w` in a test source.
fn kind_of(w: &str) -> TokenKind {
    match w {
        "+" => TokenKind::plus,
        "-" => TokenKind::minus,
        "<" => TokenKind::less,
        ">" => TokenKind::greater,
        "," => TokenKind::comma,
        ";" => TokenKind::semi,
        "." => TokenKind::period,
        ":" => TokenKind::colon,
        "(" => TokenKind::l_paren,
        ")" => TokenKind::r_paren,
        "[" => TokenKind::l_square,
        "]" => TokenKind::r_square,
        "{" => TokenKind::l_brace,
        "}" => TokenKind::r_brace,
        "{|" => TokenKind::l_bracepipe,
        "|}" => TokenKind::piper_brace,
        "=>" => TokenKind::equalgreater,
        "..." => TokenKind::dotdotdot,
        "?" => TokenKind::question,
        "in" => TokenKind::rw_in,
        "if" => TokenKind::rw_if,
        "this" => TokenKind::rw_this,
        "static" => TokenKind::rw_static,
        "extends" => TokenKind::rw_extends,
        "class" => TokenKind::rw_class,
        "enum" => TokenKind::rw_enum,
        "function" => TokenKind::rw_function,
        "var" => TokenKind::rw_var,
        "const" => TokenKind::rw_const,
        "export" => TokenKind::rw_export,
        "default" => TokenKind::rw_default,
        "*" => TokenKind::star,
        "=" => TokenKind::equal,
        "implements" => TokenKind::rw_implements,
        _ => {
            let c = w.as_bytes()[0];
            if c.is_ascii_digit() {
                TokenKind::numeric_literal
            } else if c == b'"' {
                TokenKind::string_literal
            } else if c == b'#' {
                TokenKind::private_identifier
            } else {
                TokenKind::identifier
            }
        },
    }
}

/// The tokens of `src`, whose tokens are separated by blanks.
fn lex(src: &str) -> Vec<Token> {
    let bytes = src.as_bytes();
    let mut toks = Vec::new();
    let mut i = 0;
    while i < bytes.len() {
        if bytes[i] == b' ' {
            i += 1;
            continue;
        }
        let start = i;
        while i < bytes.len() && bytes[i] != b' ' {
            i += 1;
        }
        let w = &src[start..i];
        toks.push(Token { kind: kind_of(w), value: w.as_bytes().to_vec(), start, end: i, new_line_before: false });
    }
    toks.push(Token {
        kind: TokenKind::eof,
        value: Vec::new(),
        start: bytes.len(),
        end: bytes.len(),
        new_line_before: false,
    });
    toks
}

fn parser(src: &str) -> JSParserImpl {
    let lexer = JSLexer::new(lex(src)).unwrap();
    JSParserImpl::new(
        lexer,
        ParserOptions {
            parse_flow: true,
            parse_ts: false,
            parse_flow_component_syntax: false,
            parse_flow_records: false,
            param_await: false,
            param_yield: false,
            strict_mode: false,
        },
    )
}

fn err(kind: ErrorKind, start: usize, end: usize) -> ParseError {
    ParseError { kind, start, end }
}

fn items(l: &NodeList) -> Vec<&Expr> {
    let mut out = Vec::new();
    let mut l = l;
    while let NodeList::Cons(t, rest) = l {
        out.push(&**t);
        l = rest;
    }
    out
}

/// The text of a one-token node.
fn text(src: &str, e: &Expr) -> String {
    src[e.start..e.end].to_string()
}

/// An object type parsed from the start of `src`, with `proto` and
/// `static` allowed as given and spreads allowed.
fn object(src: &str, allow_proto: bool, allow_static: bool, allow_spread: bool) -> (Option<Expr>, Vec<ParseError>, usize) {
    let mut p = parser(src);
    let r = p.parse_object_type_annotation_flow(allow_proto, allow_static, allow_spread);
    (r, p.errors.clone(), p.lexer.cur_index())
}

/// The four member lists and the two flags of an object type.
fn parts(e: &Expr) -> (Vec<&Expr>, Vec<&Expr>, Vec<&Expr>, Vec<&Expr>, bool, bool) {
    match &e.node {
        Node::ObjectTypeAnnotation { properties, indexers, call_properties, internal_slots, inexact, exact } => (
            items(properties),
            items(indexers),
            items(call_properties),
            items(internal_slots),
            *inexact,
            *exact,
        ),
        _ => panic!("not an object type"),
    }
}

#[test]
fn object_type_properties_of_a_body() {
    let src = "{ a : T , b ? : U ; }";
    let (r, errs, pos) = object(src, false, false, true);
    assert!(errs.is_empty());
    assert_eq!(pos, 11);
    let e = r.unwrap();
    assert_eq!((e.start, e.end), (0, 21));
    let (props, idx, calls, slots, inexact, exact) = parts(&e);
    assert!(idx.is_empty() && calls.is_empty() && slots.is_empty() && !inexact && !exact);
    assert_eq!(props.len(), 2);
    match &props[1].node {
        Node::ObjectTypeProperty { key, value, optional, method, property_kind, .. } => {
            assert_eq!(text(src, key), "b");
            assert_eq!(text(src, value), "U");
            assert!(*optional && !*method);
            assert_eq!(*property_kind, PropertyKind::Init);
        },
        _ => panic!("not a property"),
    }
}

#[test]
fn object_type_exact_and_inexact() {
    let (r, errs, _) = object("{| a : T |}", false, false, true);
    assert!(errs.is_empty());
    let e = r.unwrap();
    let (_, _, _, _, inexact, exact) = parts(&e);
    assert!(exact && !inexact);
    let (r, errs, _) = object("{ a : T , ... }", false, false, true);
    assert!(errs.is_empty());
    let e = r.unwrap();
    assert!(parts(&e).4);
    let (r, _, _) = object("{ ... , }", false, false, true);
    let e = r.unwrap();
    assert!(parts(&e).4);
    let (r, errs, _) = object("{| ... |}", false, false, true);
    assert!(r.is_some());
    assert_eq!(errs, vec![err(ErrorKind::InexactInExactObject, 0, 0)]);
    let (r, errs, _) = object("{| a : T }", false, false, true);
    assert!(r.is_none());
    assert_eq!(errs, vec![err(ErrorKind::Expected(TokenKind::piper_brace), 9, 10)]);
}

#[test]
fn object_type_spread() {
    let src = "{ ... T , a : U }";
    let (r, errs, _) = object(src, false, false, true);
    assert!(errs.is_empty());
    let e = r.unwrap();
    let (props, ..) = parts(&e);
    match &props[0].node {
        Node::ObjectTypeSpreadProperty { argument } => assert_eq!(text(src, argument), "T"),
        _ => panic!("not a spread"),
    }
    assert_eq!((props[0].start, props[0].end), (2, 7));
    let (r, errs, _) = object(src, false, false, false);
    assert!(r.is_some());
    assert_eq!(errs, vec![err(ErrorKind::SpreadOutsideObjectType, 2, 2)]);
}

#[test]
fn object_type_members_by_list() {
    let src = "{ m ( x : T ) : R , [ k : K ] : V , [ K in O ] ? : T , ( ) : C , [ [ slot ] ] : S }";
    let (r, errs, _) = object(src, false, false, true);
    assert!(errs.is_empty());
    let e = r.unwrap();
    let (props, idx, calls, slots, ..) = parts(&e);
    assert_eq!(props.len(), 2);
    assert!(matches!(props[0].node, Node::ObjectTypeProperty { method: true, .. }));
    assert!(matches!(
        props[1].node,
        Node::ObjectTypeMappedTypeProperty { optionality: Some(MappedTypeOptional::Optional), .. }
    ));
    assert_eq!(idx.len(), 1);
    assert!(matches!(idx[0].node, Node::ObjectTypeIndexer { key_name: Some(_), .. }));
    assert_eq!(calls.len(), 1);
    assert!(matches!(calls[0].node, Node::ObjectTypeCallProperty { .. }));
    assert_eq!(slots.len(), 1);
    match &slots[0].node {
        Node::ObjectTypeInternalSlot { id, value, optional, method, .. } => {
            assert_eq!(text(src, id), "slot");
            assert_eq!(text(src, value), "S");
            assert!(!*optional && !*method);
        },
        _ => panic!("not an internal slot"),
    }
}

#[test]
fn object_type_internal_slot_method() {
    let src = "{ [ [ call ] ] ( x : T ) : R }";
    let (r, errs, _) = object(src, false, false, true);
    assert!(errs.is_empty());
    let e = r.unwrap();
    let (_, _, _, slots, ..) = parts(&e);
    assert!(matches!(slots[0].node, Node::ObjectTypeInternalSlot { method: true, .. }));
    let (r, errs, _) = object("{ [ [ 1 ] ] : S }", false, false, true);
    assert!(r.is_none());
    assert_eq!(errs, vec![err(ErrorKind::Expected(TokenKind::identifier), 6, 7)]);
}

#[test]
fn object_type_accessors_and_names() {
    let src = "{ get x ( ) : T , set x ( v : T ) : void , get : G , if : I , \"s\" : S , 1 : N }";
    let (r, errs, _) = object(src, false, false, true);
    assert!(errs.is_empty());
    let e = r.unwrap();
    let (props, ..) = parts(&e);
    assert_eq!(props.len(), 6);
    assert!(matches!(props[0].node, Node::ObjectTypeProperty { property_kind: PropertyKind::Getter, .. }));
    assert!(matches!(props[1].node, Node::ObjectTypeProperty { property_kind: PropertyKind::Setter, .. }));
    for (i, name) in [(2, "get"), (3, "if"), (4, "\"s\""), (5, "1")] {
        match &props[i].node {
            Node::ObjectTypeProperty { key, property_kind: PropertyKind::Init, .. } => assert_eq!(text(src, key), name),
            _ => panic!("not a plain property"),
        }
    }
}

#[test]
fn object_type_static_and_proto() {
    let src = "{ static ( ) : R }";
    let (r, errs, _) = object(src, false, false, true);
    assert!(errs.is_empty());
    let e = r.unwrap();
    let (props, _, calls, ..) = parts(&e);
    assert!(calls.is_empty());
    match &props[0].node {
        Node::ObjectTypeProperty { key, method: true, is_static: false, .. } => assert_eq!(text(src, key), "static"),
        _ => panic!("not a method named static"),
    }
    let (r, errs, _) = object(src, false, true, true);
    assert!(errs.is_empty());
    let e = r.unwrap();
    let (_, _, calls, ..) = parts(&e);
    assert!(matches!(calls[0].node, Node::ObjectTypeCallProperty { is_static: true, .. }));
    let src = "{ static : T , proto ? : U }";
    let (r, errs, _) = object(src, true, true, true);
    assert!(errs.is_empty());
    let e = r.unwrap();
    let (props, ..) = parts(&e);
    match &props[1].node {
        Node::ObjectTypeProperty { key, optional: true, proto: false, .. } => assert_eq!(text(src, key), "proto"),
        _ => panic!("not a property named proto"),
    }
    let (r, errs, _) = object("{ static x : T }", false, false, true);
    let e = r.unwrap();
    assert!(matches!(parts(&e).0[0].node, Node::ObjectTypeProperty { is_static: true, .. }));
    assert_eq!(errs, vec![err(ErrorKind::InvalidStaticModifier, 2, 8)]);
    let (r, errs, _) = object("{ proto x : T }", false, false, true);
    let e = r.unwrap();
    assert!(matches!(parts(&e).0[0].node, Node::ObjectTypeProperty { proto: true, .. }));
    assert_eq!(errs, vec![err(ErrorKind::InvalidProtoModifier, 2, 7)]);
    let (_, errs, _) = object("{ proto x : T }", true, false, true);
    assert!(errs.is_empty());
    let (_, errs, _) = object("{ proto [ K ] : V }", true, false, true);
    assert_eq!(errs, vec![err(ErrorKind::InvalidProtoModifier, 2, 7)]);
}

#[test]
fn object_type_variance() {
    let src = "{ + x : T , readonly y : U , readonly : V }";
    let (r, errs, _) = object(src, false, false, true);
    assert!(errs.is_empty());
    let e = r.unwrap();
    let (props, ..) = parts(&e);
    let variance_of = |e: &Expr| match &e.node {
        Node::ObjectTypeProperty { variance, .. } => variance.as_ref().map(|v| v.node == Node::Variance(VarianceKind::Plus)),
        _ => panic!("not a property"),
    };
    assert_eq!(variance_of(props[0]), Some(true));
    assert_eq!(variance_of(props[1]), Some(false));
    assert_eq!(variance_of(props[2]), None);
    match &props[1].node {
        Node::ObjectTypeProperty { variance: Some(v), .. } => assert_eq!(v.node, Node::Variance(VarianceKind::Readonly)),
        _ => panic!("no variance"),
    }
    let (r, errs, _) = object("{ - ( ) : R }", false, false, true);
    assert!(r.is_some());
    assert_eq!(errs, vec![err(ErrorKind::CallPropertyVariance, 2, 3)]);
    let (_, errs, _) = object("{ + m ( ) : R }", false, false, true);
    assert_eq!(errs, vec![err(ErrorKind::UnexpectedVarianceSigil, 2, 3)]);
    let (_, errs, _) = object("{ + get x ( ) : R }", false, false, true);
    assert_eq!(errs, vec![err(ErrorKind::AccessorVariance, 2, 3)]);
    let (_, errs, _) = object("{ + [ [ s ] ] : R }", false, false, true);
    assert_eq!(errs, vec![err(ErrorKind::UnexpectedVarianceSigil, 2, 3)]);
}

#[test]
fn object_type_errors() {
    let (r, errs, pos) = object("{ a : T b : U }", false, false, true);
    assert!(r.is_none());
    assert_eq!(errs, vec![err(ErrorKind::ExpectedPropertySeparator, 8, 9)]);
    assert_eq!(pos, 4);
    let (r, errs, _) = object("{ a T }", false, false, true);
    assert!(r.is_none());
    assert_eq!(errs, vec![err(ErrorKind::ExpectedEither(TokenKind::colon, TokenKind::question), 4, 5)]);
    let (r, errs, _) = object("{ #p : T }", false, false, true);
    assert!(r.is_none());
    assert_eq!(errs, vec![err(ErrorKind::InvalidPropertyName, 2, 4)]);
    let (r, errs, _) = object("{ get [ x ] ( ) : T }", false, false, true);
    assert!(r.is_none());
    assert_eq!(errs, vec![err(ErrorKind::Unsupported(UnsupportedSyntax::ComputedPropertyKey), 6, 7)]);
    let (r, errs, _) = object("{ [ x ] }", false, false, true);
    assert!(r.is_none());
    assert_eq!(errs, vec![err(ErrorKind::Expected(TokenKind::colon), 8, 9)]);
}

#[test]
fn object_type_member_into_lists() {
    let src = "[ k : K ] : V";
    let mut p = parser(src);
    let (mut a, mut b, mut c, mut d) = (Vec::new(), Vec::new(), Vec::new(), Vec::new());
    assert!(p.parse_property_type_annotation_flow(false, false, &mut a, &mut b, &mut c, &mut d));
    assert_eq!((a.len(), b.len(), c.len(), d.len()), (0, 1, 0, 0));
    let mut p = parser("a b");
    assert!(!p.parse_property_type_annotation_flow(false, false, &mut a, &mut b, &mut c, &mut d));
    assert_eq!((a.len(), b.len(), c.len(), d.len()), (0, 1, 0, 0));
}

#[test]
fn object_type_members_keep_what_was_read() {
    let src = "a : T , b : U c";
    let mut p = parser(src);
    let (mut a, mut b, mut c, mut d) = (Vec::new(), Vec::new(), Vec::new(), Vec::new());
    let mut inexact = false;
    let ok = p.parse_object_type_properties_flow(false, false, true, &mut a, &mut b, &mut c, &mut d, &mut inexact);
    assert!(!ok);
    assert_eq!(a.len(), 2);
    assert_eq!(p.errors, vec![err(ErrorKind::ExpectedPropertySeparator, 14, 15)]);
}

#[test]
fn property_names() {
    for (src, node) in [
        ("x", Node::Identifier(0)),
        ("if", Node::Identifier(0)),
        ("\"s\"", Node::StringLiteral(0)),
        ("12", Node::NumericLiteral(0)),
    ] {
        let mut p = parser(src);
        let e = p.parse_property_name().unwrap();
        assert_eq!(e, Expr { parens: 0, node, start: 0, end: src.len() });
        assert_eq!(p.lexer.cur_index(), 1);
    }
    let mut p = parser(":");
    assert!(p.parse_property_name().is_none());
    assert_eq!(p.errors, vec![err(ErrorKind::InvalidPropertyName, 0, 1)]);
}

fn interface(src: &str, declare_start: Option<usize>) -> (Option<Expr>, Vec<ParseError>, usize) {
    let mut p = parser(src);
    let r = p.parse_interface_declaration_flow(declare_start);
    (r, p.errors.clone(), p.lexer.cur_index())
}

#[test]
fn interface_declarations() {
    let src = "interface I < T > extends A , B < T > { a : T }";
    let (r, errs, pos) = interface(src, None);
    assert!(errs.is_empty());
    assert_eq!(pos, 17);
    let e = r.unwrap();
    assert_eq!((e.start, e.end), (0, 47));
    match &e.node {
        Node::InterfaceDeclaration { id, type_parameters, extends, body } => {
            assert_eq!(text(src, id), "I");
            assert!(type_parameters.is_some());
            let ext = items(extends);
            assert_eq!(ext.len(), 2);
            assert!(matches!(ext[0].node, Node::InterfaceExtends { type_parameters: None, .. }));
            assert_eq!(text(src, ext[1]), "B < T >");
            assert_eq!(parts(body).0.len(), 1);
        },
        _ => panic!("not an interface declaration"),
    }
    let (r, errs, _) = interface("interface I { }", Some(100));
    assert!(errs.is_empty());
    let e = r.unwrap();
    assert_eq!((e.start, e.end), (100, 15));
    assert!(matches!(e.node, Node::DeclareInterface { extends: NodeList::Nil, .. }));
}

#[test]
fn interface_declaration_errors() {
    let (r, errs, _) = interface("interface { }", None);
    assert!(r.is_none());
    assert_eq!(errs, vec![err(ErrorKind::Expected(TokenKind::identifier), 10, 11)]);
    let (r, errs, _) = interface("interface I extends { }", None);
    assert!(r.is_none());
    assert_eq!(errs, vec![err(ErrorKind::Expected(TokenKind::identifier), 20, 21)]);
    let (r, errs, _) = interface("interface I extends A B { }", None);
    assert!(r.is_none());
    assert_eq!(errs, vec![err(ErrorKind::Expected(TokenKind::l_brace), 22, 23)]);
    let (r, errs, _) = interface("interface I { static x : T }", None);
    assert!(r.is_some());
    assert_eq!(errs, vec![err(ErrorKind::InvalidStaticModifier, 14, 20)]);
    let (r, errs, _) = interface("interface I { ... T }", None);
    assert!(r.is_some());
    assert_eq!(errs, vec![err(ErrorKind::SpreadOutsideObjectType, 14, 14)]);
}

#[test]
fn interface_tail() {
    let src = "extends A , B { }";
    let mut p = parser(src);
    let mut ext = Vec::new();
    let body = p.parse_interface_tail_flow(&mut ext).unwrap();
    assert_eq!(ext.len(), 2);
    assert_eq!((body.start, body.end), (14, 17));
    let mut p = parser("extends A , { }");
    let mut ext = Vec::new();
    assert!(p.parse_interface_tail_flow(&mut ext).is_none());
    assert_eq!(ext.len(), 1);
    assert_eq!(p.errors, vec![err(ErrorKind::Expected(TokenKind::identifier), 12, 13)]);
}

fn declare_class(src: &str) -> (Option<Expr>, Vec<ParseError>, JSParserImpl) {
    let mut p = parser(src);
    let r = p.parse_declare_class_flow(100);
    let errs = p.errors.clone();
    (r, errs, p)
}

#[test]
fn declare_class_heritage_and_body() {
    let src = "class C < T > extends B < T > mixins M , N implements I , J < T > { static x : T , proto y : U }";
    let (r, errs, p) = declare_class(src);
    assert!(errs.is_empty());
    assert!(!p.options.strict_mode);
    let e = r.unwrap();
    assert_eq!((e.start, e.end), (100, src.len()));
    match &e.node {
        Node::DeclareClass { id, type_parameters, extends, implements, mixins, body } => {
            assert_eq!(text(src, id), "C");
            assert!(type_parameters.is_some());
            assert_eq!(items(extends).len(), 1);
            assert_eq!(text(src, items(extends)[0]), "B < T >");
            assert_eq!(items(mixins).len(), 2);
            let imp = items(implements);
            assert_eq!(imp.len(), 2);
            assert!(matches!(imp[1].node, Node::ClassImplements { type_parameters: Some(_), .. }));
            let (props, ..) = parts(body);
            assert!(matches!(props[0].node, Node::ObjectTypeProperty { is_static: true, .. }));
            assert!(matches!(props[1].node, Node::ObjectTypeProperty { proto: true, .. }));
        },
        _ => panic!("not a declared class"),
    }
}

#[test]
fn declare_class_errors() {
    let (r, errs, _) = declare_class("class { }");
    assert!(r.is_none());
    assert_eq!(errs, vec![err(ErrorKind::Expected(TokenKind::identifier), 6, 7)]);
    let (r, errs, _) = declare_class("class C extends { }");
    assert!(r.is_none());
    assert_eq!(errs, vec![err(ErrorKind::Expected(TokenKind::identifier), 16, 17)]);
    let (r, errs, _) = declare_class("class C implements I , { }");
    assert!(r.is_none());
    assert_eq!(errs, vec![err(ErrorKind::Expected(TokenKind::identifier), 23, 24)]);
    let (r, errs, _) = declare_class("class C mixins M N { }");
    assert!(r.is_none());
    assert_eq!(errs, vec![err(ErrorKind::Expected(TokenKind::l_brace), 17, 18)]);
    let (r, errs, _) = declare_class("class C { ... T }");
    assert!(r.is_some());
    assert_eq!(errs, vec![err(ErrorKind::SpreadOutsideObjectType, 10, 10)]);
}

#[test]
fn object_type_members_stop_at_closing_token() {
    for src in ["a : T , b : U }", "a : T ; |}", "}"] {
        let mut p = parser(src);
        let (mut a, mut b, mut c, mut d) = (Vec::new(), Vec::new(), Vec::new(), Vec::new());
        let mut inexact = false;
        assert!(p.parse_object_type_properties_flow(false, false, true, &mut a, &mut b, &mut c, &mut d, &mut inexact));
        assert!(!inexact);
        assert!(p.check2(TokenKind::r_brace, TokenKind::piper_brace));
        assert!(p.errors.is_empty());
    }
    let mut p = parser("a : T b");
    let (mut a, mut b, mut c, mut d) = (Vec::new(), Vec::new(), Vec::new(), Vec::new());
    let mut inexact = false;
    assert!(!p.parse_object_type_properties_flow(false, false, true, &mut a, &mut b, &mut c, &mut d, &mut inexact));
    assert!(!p.errors.is_empty());
}

fn declaration(src: &str, component_syntax: bool, records: bool) -> (Option<FlowDeclaration>, Vec<ParseError>) {
    let lexer = JSLexer::new(lex(src)).unwrap();
    let mut p = JSParserImpl::new(
        lexer,
        ParserOptions {
            parse_flow: true,
            parse_ts: false,
            parse_flow_component_syntax: component_syntax,
            parse_flow_records: records,
            param_await: false,
            param_yield: false,
            strict_mode: false,
        },
    );
    let r = p.parse_flow_declaration();
    (r, p.errors.clone())
}

fn declared_node(r: Option<FlowDeclaration>) -> Expr {
    match r {
        Some(FlowDeclaration::Declaration(e)) => e,
        _ => panic!("not a declaration node"),
    }
}

#[test]
fn flow_declarations_dispatch() {
    let (r, errs) = declaration("type T = number ;", false, false);
    assert!(errs.is_empty());
    let e = declared_node(r);
    assert!(matches!(e.node, Node::TypeAlias { .. }));
    assert_eq!((e.start, e.end), (0, 17));
    let (r, _) = declaration("opaque type T = string ;", false, false);
    assert!(matches!(declared_node(r).node, Node::OpaqueType { .. }));
    let (r, _) = declaration("declare type T = U ;", false, false);
    let e = declared_node(r);
    assert!(matches!(e.node, Node::DeclareTypeAlias { .. }));
    assert_eq!(e.start, 0);
    let (r, _) = declaration("interface I { }", false, false);
    assert!(matches!(declared_node(r).node, Node::InterfaceDeclaration { .. }));
    let (r, _) = declaration("declare interface I { }", false, false);
    let e = declared_node(r);
    assert!(matches!(e.node, Node::DeclareInterface { .. }));
    assert_eq!((e.start, e.end), (0, 23));
    let (r, errs) = declaration("enum E { A , B }", false, false);
    assert!(errs.is_empty());
    match r {
        Some(FlowDeclaration::Enum(d)) => {
            assert_eq!(d.body.members.len(), 2);
            assert!(!d.declare);
        },
        _ => panic!("not an enum"),
    }
}

#[test]
fn flow_declaration_errors() {
    let (r, errs) = declaration("declare x", false, false);
    assert!(r.is_none());
    assert_eq!(errs, vec![err(ErrorKind::InvalidDeclareToken, 8, 9)]);
    let (r, errs) = declaration("opaque interface I { }", false, false);
    assert!(r.is_none());
    assert_eq!(errs, vec![err(ErrorKind::InvalidOpaqueToken, 7, 16)]);
    let (r, errs) = declaration("declare opaque type T ;", false, false);
    assert!(r.is_none());
    assert_eq!(errs, vec![err(ErrorKind::InvalidDeclareToken, 8, 14)]);
}

#[test]
fn flow_declarations_not_parsed() {
    let (r, errs) = declaration("component Foo ( ) { }", true, false);
    assert!(r.is_none());
    assert_eq!(errs, vec![err(ErrorKind::Unsupported(UnsupportedSyntax::ComponentDeclaration), 0, 9)]);
    let (r, errs) = declaration("async hook useX ( ) { }", true, false);
    assert!(r.is_none());
    assert_eq!(errs, vec![err(ErrorKind::Unsupported(UnsupportedSyntax::HookDeclaration), 0, 5)]);
}

#[test]
fn declare_export_wrapping() {
    let mut p = parser("a b");
    p.advance();
    let decl = Expr { parens: 0, node: Node::Identifier(0), start: 5, end: 9 };
    let e = p.wrap_declare_export(1, Some(decl), true).unwrap();
    assert_eq!((e.start, e.end), (1, 9));
    assert!(matches!(
        e.node,
        Node::DeclareExportDeclaration { declaration: Some(_), specifiers: NodeList::Nil, source: None, is_default: true }
    ));
    let e = p.wrap_declare_export(0, None, false).unwrap();
    assert_eq!((e.start, e.end), (0, 1));
    assert!(matches!(e.node, Node::DeclareExportDeclaration { declaration: None, is_default: false, .. }));
}

fn declare(src: &str, component_syntax: bool) -> (Option<FlowDeclaration>, Vec<ParseError>) {
    let lexer = JSLexer::new(lex(src)).unwrap();
    let mut p = JSParserImpl::new(
        lexer,
        ParserOptions {
            parse_flow: true,
            parse_ts: false,
            parse_flow_component_syntax: component_syntax,
            parse_flow_records: false,
            param_await: false,
            param_yield: false,
            strict_mode: false,
        },
    );
    let r = p.parse_declare_flow(100);
    (r, p.errors.clone())
}

#[test]
fn declare_statements() {
    let (r, errs) = declare("type T = U ;", false);
    assert!(errs.is_empty());
    let e = declared_node(r);
    assert!(matches!(e.node, Node::DeclareTypeAlias { .. }));
    assert_eq!(e.start, 100);
    let (r, _) = declare("opaque type T ;", false);
    assert!(matches!(declared_node(r).node, Node::DeclareOpaqueType { .. }));
    let (r, _) = declare("interface I { }", false);
    let e = declared_node(r);
    assert!(matches!(e.node, Node::DeclareInterface { .. }));
    assert_eq!(e.start, 100);
    let (r, _) = declare("class C { }", false);
    assert!(matches!(declared_node(r).node, Node::DeclareClass { .. }));
    let (r, _) = declare("function f ( ) : R ;", false);
    assert!(matches!(declared_node(r).node, Node::DeclareFunction { .. }));
    let (r, errs) = declare("enum E { A }", false);
    assert!(errs.is_empty());
    match r {
        Some(FlowDeclaration::Enum(d)) => assert!(d.declare),
        _ => panic!("not an enum"),
    }
}

#[test]
fn declare_hooks_and_components() {
    let (r, errs) = declare("hook useX ( ) : R ;", true);
    assert!(errs.is_empty());
    assert!(matches!(declared_node(r).node, Node::DeclareHook { .. }));
    let (r, errs) = declare("async hook useX ( ) : R ;", true);
    assert!(matches!(declared_node(r).node, Node::DeclareHook { .. }));
    assert_eq!(errs, vec![err(ErrorKind::AsyncDeclaredHook, 0, 0)]);
    let (r, errs) = declare("async component Foo ( ) { }", true);
    assert!(r.is_none());
    assert_eq!(
        errs,
        vec![
            err(ErrorKind::AsyncDeclaredComponent, 0, 0),
            err(ErrorKind::Unsupported(UnsupportedSyntax::ComponentDeclaration), 6, 15),
        ],
    );
    let (r, errs) = declare("hook useX ( ) : R ;", false);
    assert!(r.is_none());
    assert_eq!(errs, vec![err(target_error(), 0, 4)]);
}

#[test]
fn declare_statement_errors() {
    let (r, errs) = declare("opaque T", false);
    assert!(r.is_none());
    assert_eq!(errs, vec![err(ErrorKind::TypeRequiredAfterOpaque, 7, 7)]);
    for (src, u) in [
        ("namespace N { }", UnsupportedSyntax::DeclareNamespace),
    ] {
        let (r, errs) = declare(src, false);
        assert!(r.is_none());
        assert_eq!(errs.len(), 1);
        assert_eq!(errs[0].kind, ErrorKind::Unsupported(u));
        assert_eq!(errs[0].start, 0);
    }
    let (r, errs) = declare("x", false);
    assert!(r.is_none());
    assert_eq!(errs, vec![err(target_error(), 0, 1)]);
}

fn target_error() -> ErrorKind {
    ErrorKind::ExpectedOneOf5(
        TokenKind::rw_export,
        TokenKind::rw_interface,
        TokenKind::rw_function,
        TokenKind::rw_class,
        TokenKind::rw_var,
    )
}

#[test]
fn declare_variables() {
    let src = "var x : T ;";
    let (r, errs) = declare(src, false);
    assert!(errs.is_empty());
    let e = declared_node(r);
    assert_eq!((e.start, e.end), (100, 11));
    match e.node {
        Node::DeclareVariable { id, annotation: Some(a), kind } => {
            assert_eq!(*id, Expr { parens: 0, node: Node::Identifier(1), start: 4, end: 9 });
            assert_eq!((a.start, a.end), (6, 9));
            assert_eq!(kind, BindingKind::Var);
        },
        _ => panic!("not a declared variable"),
    }
    let (r, errs) = declare("let x ;", false);
    assert!(matches!(declared_node(r).node, Node::DeclareVariable { annotation: None, kind: BindingKind::Let, .. }));
    assert_eq!(errs, vec![err(ErrorKind::MissingDeclaredVarType, 4, 5)]);
    let (r, errs) = declare("const : T ;", false);
    assert!(r.is_none());
    assert_eq!(errs, vec![err(ErrorKind::Expected(TokenKind::identifier), 6, 7)]);
}

#[test]
fn declare_exports() {
    let (r, errs) = declare("export type T = U ;", false);
    assert!(errs.is_empty());
    let e = declared_node(r);
    assert_eq!((e.start, e.end), (100, 19));
    match e.node {
        Node::DeclareExportDeclaration { declaration: Some(d), is_default: false, source: None, .. } => {
            assert!(matches!(d.node, Node::TypeAlias { .. }));
            assert_eq!(d.start, 7);
        },
        _ => panic!("not an export"),
    }
    let (r, _) = declare("export default function f ( ) : R ;", false);
    match declared_node(r).node {
        Node::DeclareExportDeclaration { declaration: Some(d), is_default: true, .. } => {
            assert!(matches!(d.node, Node::DeclareFunction { .. }));
            assert_eq!(d.start, 15);
        },
        _ => panic!("not a default export"),
    }
    let (r, errs) = declare("export default T ;", false);
    assert!(errs.is_empty());
    let e = declared_node(r);
    assert_eq!((e.start, e.end), (100, 18));
    assert!(matches!(e.node, Node::DeclareExportDeclaration { is_default: true, .. }));
    let (r, _) = declare("export class C { }", false);
    assert!(matches!(declared_node(r).node, Node::DeclareExportDeclaration { declaration: Some(_), .. }));
    let (r, _) = declare("export var x : T ;", false);
    assert!(matches!(declared_node(r).node, Node::DeclareExportDeclaration { declaration: Some(_), .. }));
    let (r, _) = declare("export opaque type T ;", false);
    assert!(matches!(declared_node(r).node, Node::DeclareExportDeclaration { declaration: Some(_), .. }));
    let (r, _) = declare("export interface I { }", false);
    assert!(matches!(declared_node(r).node, Node::DeclareExportDeclaration { declaration: Some(_), .. }));
    let (r, errs) = declare("export enum E { A }", false);
    assert!(errs.is_empty());
    match r {
        Some(FlowDeclaration::ExportedEnum(d, s, e)) => {
            assert!(d.declare);
            assert_eq!((s, e), (100, d.end));
        },
        _ => panic!("not an exported enum"),
    }
}

#[test]
fn declare_export_all() {
    let src = "export * from \"m\" ;";
    let (r, errs) = declare(src, false);
    assert!(errs.is_empty());
    let e = declared_node(r);
    assert_eq!((e.start, e.end), (100, 19));
    match e.node {
        Node::DeclareExportAllDeclaration { source } => {
            assert_eq!(*source, Expr { parens: 0, node: Node::StringLiteral(3), start: 14, end: 17 });
        },
        _ => panic!("not an export of everything"),
    }
    let (r, errs) = declare("export * x", false);
    assert!(r.is_none());
    assert_eq!(errs, vec![err(ErrorKind::ExpectedFromClause, 9, 9)]);
    let (r, errs) = declare("export * from x", false);
    assert!(r.is_none());
    assert_eq!(errs, vec![err(ErrorKind::Expected(TokenKind::string_literal), 14, 15)]);
    let (r, errs) = declare("export x", false);
    assert!(r.is_none());
    assert_eq!(errs, vec![err(ErrorKind::Expected(TokenKind::l_brace), 7, 8)]);
}

/// A parser over `src` with records enabled, where `static` and
/// `implements` are plain names.
fn record_parser(src: &str) -> JSParserImpl {
    let mut toks = lex(src);
    for t in toks.iter_mut() {
        if t.value == b"static".to_vec() || t.value == b"implements".to_vec() {
            t.kind = TokenKind::identifier;
        }
    }
    JSParserImpl::new(
        JSLexer::new(toks).unwrap(),
        ParserOptions {
            parse_flow: true,
            parse_ts: false,
            parse_flow_component_syntax: false,
            parse_flow_records: true,
            param_await: false,
            param_yield: false,
            strict_mode: false,
        },
    )
}

fn record(src: &str) -> (Option<Expr>, Vec<ParseError>, usize) {
    let mut p = record_parser(src);
    let r = p.parse_record_declaration_flow(0);
    (r, p.errors.clone(), p.lexer.cur_index())
}

#[test]
fn record_declarations() {
    let src = "record R < T > implements I , J < T > { a : T , b : number }";
    let (r, errs, pos) = record(src);
    assert!(errs.is_empty());
    assert_eq!(pos, 21);
    let e = r.unwrap();
    assert_eq!((e.start, e.end), (0, src.len()));
    match &e.node {
        Node::RecordDeclaration { id, type_parameters, implements, body } => {
            assert_eq!(text(src, id), "R");
            assert!(type_parameters.is_some());
            let imp = items(implements);
            assert_eq!(imp.len(), 2);
            assert!(matches!(imp[1].node, Node::RecordDeclarationImplements { type_parameters: Some(_), .. }));
            assert_eq!(body.start, src.find('{').unwrap());
            match &body.node {
                Node::RecordDeclarationBody { elements } => {
                    let els = items(elements);
                    assert_eq!(els.len(), 2);
                    match &els[0].node {
                        Node::RecordDeclarationProperty { key, type_annotation, initializer: None } => {
                            assert_eq!(text(src, key), "a");
                            assert_eq!(text(src, type_annotation), ": T");
                        },
                        _ => panic!("not a property"),
                    }
                },
                _ => panic!("not a record body"),
            }
        },
        _ => panic!("not a record"),
    }
    let (r, errs, _) = record("record R { }");
    assert!(errs.is_empty());
    assert!(r.is_some());
}

#[test]
fn record_member_rules() {
    let cases: [(&str, ErrorKind, usize, usize); 7] = [
        ("record R { constructor : T }", ErrorKind::InvalidRecordPropertyName, 11, 22),
        ("record R { static prototype : T }", ErrorKind::InvalidRecordPropertyName, 18, 27),
        ("record R { static a : T }", ErrorKind::StaticRecordPropertyInitializer, 19, 19),
        ("record R { async a : T }", ErrorKind::RecordModifierOnProperty, 17, 18),
        ("record R { * a : T }", ErrorKind::RecordModifierOnProperty, 13, 14),
        ("record R { [ a ] : T }", ErrorKind::RecordComputedProperty, 11, 11),
        ("record R { a }", ErrorKind::ExpectedRecordMember, 12, 12),
    ];
    for (src, kind, s, e) in cases {
        let (r, errs, _) = record(src);
        assert!(r.is_none(), "{}", src);
        assert_eq!(errs, vec![err(kind, s, e)], "{}", src);
    }
    let (r, errs, _) = record("record R { a : T = x }");
    assert!(r.is_none());
    assert_eq!(errs, vec![err(ErrorKind::Unsupported(UnsupportedSyntax::PropertyInitializer), 17, 18)]);
    let (r, errs, _) = record("record R { m ( ) { } }");
    assert!(r.is_none());
    assert_eq!(errs, vec![err(ErrorKind::Unsupported(UnsupportedSyntax::RecordMethod), 13, 14)]);
    let (r, errs, _) = record("record R { a : T b : U }");
    assert!(r.is_none());
    assert_eq!(errs, vec![err(ErrorKind::Expected(TokenKind::comma), 17, 18)]);
    let (r, errs, _) = record("record R { a : T ,");
    assert!(r.is_none());
    assert_eq!(errs, vec![err(ErrorKind::Expected(TokenKind::r_brace), 18, 18)]);
    let (r, errs, _) = record("record { }");
    assert!(r.is_none());
    assert_eq!(errs, vec![err(ErrorKind::Expected(TokenKind::identifier), 7, 8)]);
}

#[test]
fn record_through_flow_declaration() {
    let mut p = record_parser("record R { a : T }");
    match p.parse_flow_declaration() {
        Some(FlowDeclaration::Declaration(e)) => assert!(matches!(e.node, Node::RecordDeclaration { .. })),
        _ => panic!("not a record"),
    }
}

fn method(special: ClassElementSpecial, is_static: bool, is_private: bool, ctor: bool, proto: bool, params: usize, tp: bool) -> ClassMethodShape {
    ClassMethodShape {
        special,
        is_static,
        is_private,
        computed: false,
        named_constructor: ctor,
        named_prototype: proto,
        params_len: params,
        has_type_params: tp,
        start: 3,
        end: 9,
    }
}

#[test]
fn class_method_rules() {
    let mut p = parser("x");
    assert_eq!(p.check_class_method(method(ClassElementSpecial::Plain, false, false, true, false, 2, false)), Some(MethodKind::Constructor));
    assert_eq!(p.check_class_method(method(ClassElementSpecial::Plain, true, false, true, false, 0, false)), Some(MethodKind::Method));
    assert!(p.errors.is_empty());
    assert_eq!(p.check_class_method(method(ClassElementSpecial::Getter, false, false, false, false, 1, false)), Some(MethodKind::Getter));
    assert_eq!(p.errors, vec![err(ErrorKind::GetterMethodParameters, 3, 9)]);
    let mut p = parser("x");
    assert_eq!(p.check_class_method(method(ClassElementSpecial::Setter, false, false, false, false, 0, true)), Some(MethodKind::Setter));
    assert_eq!(p.errors, vec![err(ErrorKind::SetterMethodParameters, 3, 9), err(ErrorKind::AccessorTypeParameters, 3, 9)]);
    for (m, k) in [
        (method(ClassElementSpecial::Plain, true, false, false, true, 0, false), ErrorKind::StaticPrototypeMethod),
        (method(ClassElementSpecial::Plain, false, true, true, false, 0, false), ErrorKind::PrivateConstructorMethod),
        (method(ClassElementSpecial::Async, false, false, true, false, 0, false), ErrorKind::SpecialConstructor),
    ] {
        let mut p = parser("x");
        assert_eq!(p.check_class_method(m), None);
        assert_eq!(p.errors, vec![err(k, 3, 9)]);
    }
}

#[test]
fn class_property_rules() {
    let base = ClassPropertyShape {
        is_private: true,
        is_static: false,
        computed: false,
        named_constructor: true,
        named_prototype: false,
        has_accessibility: true,
        start: 4,
        end: 8,
        mods_start: 0,
        mods_end: 3,
    };
    let mut p = parser("x");
    p.check_class_property(base);
    assert_eq!(p.errors, vec![err(ErrorKind::PrivateConstructorProperty, 4, 8), err(ErrorKind::PrivateAccessibility, 0, 3)]);
    let mut p = parser("x");
    p.check_class_property(ClassPropertyShape { is_private: false, is_static: true, named_prototype: true, ..base });
    assert_eq!(p.errors, vec![err(ErrorKind::StaticPrototypeProperty, 4, 8)]);
    let mut p = parser("x");
    p.check_class_property(ClassPropertyShape { is_private: false, is_static: true, named_prototype: true, computed: true, ..base });
    assert!(p.errors.is_empty());
}

#[test]
fn declare_export_specifiers() {
    let src = "export { a , b as c , } from \"m\" ;";
    let (r, errs) = declare(src, false);
    assert!(errs.is_empty());
    let e = declared_node(r);
    assert_eq!((e.start, e.end), (100, src.len()));
    match &e.node {
        Node::DeclareExportDeclaration { declaration: None, specifiers, source: Some(s), is_default: false } => {
            let specs = items(specifiers);
            assert_eq!(specs.len(), 2);
            assert!(matches!(specs[0].node, Node::ExportSpecifier { exported: None, .. }));
            match &specs[1].node {
                Node::ExportSpecifier { local, exported: Some(x) } => {
                    assert_eq!(text(src, local), "b");
                    assert_eq!(text(src, x), "c");
                },
                _ => panic!("not a renaming specifier"),
            }
            assert_eq!((specs[1].start, specs[1].end), (13, 19));
            assert_eq!(text(src, s), "\"m\"");
        },
        _ => panic!("not an export of specifiers"),
    }
    let (r, errs) = declare("export { } ;", false);
    assert!(errs.is_empty());
    assert!(matches!(declared_node(r).node, Node::DeclareExportDeclaration { specifiers: NodeList::Nil, source: None, .. }));
    let (r, errs) = declare("export { a b }", false);
    assert!(r.is_none());
    assert_eq!(errs, vec![err(ErrorKind::Expected(TokenKind::r_brace), 11, 12)]);
    let (r, errs) = declare("export { a as }", false);
    assert!(r.is_none());
    assert_eq!(errs, vec![err(ErrorKind::Expected(TokenKind::identifier), 14, 15)]);
    let (r, errs) = declare("export { : }", false);
    assert!(r.is_none());
    assert_eq!(errs, vec![err(ErrorKind::Expected(TokenKind::identifier), 9, 10)]);
}

fn export_type(src: &str) -> (Option<Expr>, Vec<ParseError>) {
    let mut p = parser(src);
    let r = p.parse_export_type_declaration_flow(50);
    (r, p.errors.clone())
}

#[test]
fn export_type_declarations() {
    let src = "type * from \"m\" ;";
    let (r, errs) = export_type(src);
    assert!(errs.is_empty());
    let e = r.unwrap();
    assert_eq!((e.start, e.end), (50, src.len()));
    assert!(matches!(e.node, Node::ExportAllDeclaration { type_only: true, .. }));
    let (r, errs) = export_type("type T = number ;");
    assert!(errs.is_empty());
    match r.unwrap().node {
        Node::ExportNamedDeclaration { declaration: Some(a), source: None, type_only: true, .. } => {
            assert!(matches!(a.node, Node::TypeAlias { .. }));
            assert_eq!(a.start, 0);
        },
        _ => panic!("not an exported alias"),
    }
    let (r, errs) = export_type("type { A , default } from \"m\" ;");
    assert!(errs.is_empty());
    assert!(matches!(r.unwrap().node, Node::ExportNamedDeclaration { source: Some(_), .. }));
    let (r, errs) = export_type("type { A , default } ;");
    assert!(r.is_some());
    assert_eq!(errs, vec![err(ErrorKind::InvalidExportedName, 11, 18)]);
}

#[test]
fn export_type_errors() {
    let (r, errs) = export_type("type ( )");
    assert!(r.is_none());
    assert_eq!(
        errs,
        vec![err(ErrorKind::ExpectedOneOf3(TokenKind::star, TokenKind::l_brace, TokenKind::identifier), 5, 6)],
    );
    let (r, errs) = export_type("type * ;");
    assert!(r.is_none());
    assert_eq!(errs, vec![err(ErrorKind::ExpectedFromClause, 7, 7)]);
}

#[test]
fn declare_modules() {
    let (r, errs) = declare("module . exports : T ;", false);
    assert!(errs.is_empty());
    let e = declared_node(r);
    assert_eq!((e.start, e.end), (100, 22));
    match e.node {
        Node::DeclareModuleExports { type_annotation } => assert_eq!((type_annotation.start, type_annotation.end), (17, 20)),
        _ => panic!("not module.exports"),
    }
    let (r, errs) = declare("module \"m\" { }", false);
    assert!(errs.is_empty());
    let e = declared_node(r);
    assert_eq!((e.start, e.end), (100, 14));
    assert!(matches!(e.node, Node::DeclareModule { .. }));
    let (r, errs) = declare("module . foo : T", false);
    assert!(r.is_none());
    assert_eq!(errs, vec![err(ErrorKind::ExpectedModuleExports, 9, 12)]);
    let (r, errs) = declare("module M { declare var x : T ; }", false);
    assert!(r.is_none());
    assert_eq!(errs, vec![err(ErrorKind::Unsupported(UnsupportedSyntax::ModuleBodyStatement), 11, 18)]);
}
