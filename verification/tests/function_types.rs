use lib::js::expressions::{Expr, Node, NodeList};
use lib::js::flow::function_types::{list_from_vec, PredicateKind};
use lib::js::flow::object_types::{MappedTypeOptional, PropertyKind};
use lib::js::flow::types::UnsupportedSyntax;
use lib::js::{ErrorKind, JSParserImpl, ParseError, ParserOptions};
use lib::lexer::{JSLexer, Token};
use lib::token_kinds::TokenKind;

/// The kind of a token written as `w` in a test source.
fn kind_of(w: &str) -> TokenKind {
    match w {
        "+" => TokenKind::plus,
        "-" => TokenKind::minus,
        "<" => TokenKind::less,
        ">" => TokenKind::greater,
        "," => TokenKind::comma,
        ":" => TokenKind::colon,
        "." => TokenKind::period,
        "(" => TokenKind::l_paren,
        ")" => TokenKind::r_paren,
        "[" => TokenKind::l_square,
        "]" => TokenKind::r_square,
        "=>" => TokenKind::equalgreater,
        "..." => TokenKind::dotdotdot,
        "?" => TokenKind::question,
        "in" => TokenKind::rw_in,
        "void" => TokenKind::rw_void,
        "this" => TokenKind::rw_this,
        "function" => TokenKind::rw_function,
        ";" => TokenKind::semi,
        _ => TokenKind::identifier,
    }
}

/// The tokens of `src`, whose tokens are separated by blanks.
fn lex(src: &str) -> Vec<Token> {
    let bytes = src.as_bytes();
    let mut toks = Vec::new();
    let mut i = 0;
    while i < bytes.len() {
        if bytes[i] == b' ' {
            i += 1;
            continue;
        }
        let start = i;
        while i < bytes.len() && bytes[i] != b' ' {
            i += 1;
        }
        let w = &src[start..i];
        toks.push(Token { kind: kind_of(w), value: w.as_bytes().to_vec(), start, end: i, new_line_before: false });
    }
    toks.push(Token {
        kind: TokenKind::eof,
        value: Vec::new(),
        start: bytes.len(),
        end: bytes.len(),
        new_line_before: false,
    });
    toks
}

fn parser(src: &str) -> JSParserImpl {
    let lexer = JSLexer::new(lex(src)).unwrap();
    JSParserImpl::new(
        lexer,
        ParserOptions {
            parse_flow: true,
            parse_ts: false,
            parse_flow_component_syntax: false,
            parse_flow_records: false,
            param_await: false,
            param_yield: false,
            strict_mode: false,
        },
    )
}

fn list(src: &str, l: &NodeList) -> Vec<String> {
    let mut out = Vec::new();
    let mut l = l;
    while let NodeList::Cons(t, rest) = l {
        out.push(show(src, t));
        l = rest;
    }
    out
}

/// A rendering of a type over the tokens `src` was split into.
fn show(src: &str, e: &Expr) -> String {
    let toks = lex(src);
    let text = |i: usize| src[toks[i].start..toks[i].end].to_string();
    match &e.node {
        Node::Identifier(i) => text(*i),
        Node::GenericTypeAnnotation { id, type_parameters } => match type_parameters {
            None => show(src, id),
            Some(a) => format!("{}{}", show(src, id), show(src, a)),
        },
        Node::QualifiedTypeIdentifier { qualification, id } => {
            format!("{}.{}", show(src, qualification), show(src, id))
        },
        Node::TypeParameterInstantiation { params } => format!("<{}>", list(src, params).join(", ")),
        Node::TypeParameterDeclaration { params } => format!("<{}>", list(src, params).join(", ")),
        Node::TypeParameter { name, .. } => text(*name),
        Node::PrimitiveTypeAnnotation(k, _) => format!("{:?}", k),
        Node::VoidTypeAnnotation => "void".to_string(),
        Node::TypeAnnotation { type_annotation } => format!(": {}", show(src, type_annotation)),
        Node::TypePredicate { parameter_name, asserted_type, predicate_kind } => {
            let kw = match predicate_kind {
                None => "",
                Some(PredicateKind::Asserts) => "asserts ",
                Some(PredicateKind::Implies) => "implies ",
            };
            match asserted_type {
                None => format!("({}{})", kw, show(src, parameter_name)),
                Some(t) => format!("({}{} is {})", kw, show(src, parameter_name), show(src, t)),
            }
        },
        Node::FunctionTypeParam { param_name, type_annotation, optional } => match param_name {
            None => show(src, type_annotation),
            Some(n) => format!("{}{}: {}", show(src, n), if *optional { "?" } else { "" }, show(src, type_annotation)),
        },
        Node::FunctionTypeAnnotation { params, this_constraint, return_type, rest, type_parameters } => {
            let mut parts = Vec::new();
            if let Some(t) = this_constraint {
                parts.push(format!("this: {}", show(src, t)));
            }
            parts.extend(list(src, params));
            if let Some(r) = rest {
                parts.push(format!("...{}", show(src, r)));
            }
            let tp = match type_parameters {
                None => String::new(),
                Some(t) => show(src, t),
            };
            format!("fn{}({}) => {}", tp, parts.join(", "), show(src, return_type))
        },
        Node::HookTypeAnnotation { params, return_type, rest, .. } => {
            let mut parts = list(src, params);
            if let Some(r) = rest {
                parts.push(format!("...{}", show(src, r)));
            }
            format!("hook({}) => {}", parts.join(", "), show(src, return_type))
        },
        _ => "?".to_string(),
    }
}

fn err(kind: ErrorKind, start: usize, end: usize) -> ParseError {
    ParseError { kind, start, end }
}

/// Parse a return type from the start of `src`: its rendering, the
/// diagnostics and where the parser stopped.
fn return_type(src: &str) -> (Option<String>, Vec<ParseError>, usize) {
    let mut p = parser(src);
    let r = p.parse_return_type_annotation_flow(None);
    (r.map(|e| show(src, &e)), p.errors.clone(), p.lexer.cur_index())
}

#[test]
fn return_type_plain_and_guards() {
    assert_eq!(return_type("T").0.unwrap(), "T");
    assert_eq!(return_type("x is T").0.unwrap(), "(x is T)");
    assert_eq!(return_type("number is T").0.unwrap(), "(number is T)");
    assert_eq!(return_type("asserts x").0.unwrap(), "(asserts x)");
    assert_eq!(return_type("asserts x is T").0.unwrap(), "(asserts x is T)");
    assert_eq!(return_type("implies x is T").0.unwrap(), "(implies x is T)");
    assert_eq!(return_type("implies this is T").0.unwrap(), "(implies this is T)");
    assert_eq!(return_type("asserts").0.unwrap(), "asserts");
    assert_eq!(return_type("implies").0.unwrap(), "implies");
    let (r, errs, pos) = return_type("asserts x is T");
    assert!(r.is_some() && errs.is_empty());
    assert_eq!(pos, 4);
}

#[test]
fn return_type_spans_and_wrapping() {
    let src = "asserts x is T";
    let mut p = parser(src);
    let e = p.parse_return_type_annotation_flow(Some(0)).unwrap();
    assert_eq!((e.start, e.end), (0, 14));
    match e.node {
        Node::TypeAnnotation { type_annotation } => {
            assert_eq!((type_annotation.start, type_annotation.end), (0, 14));
            match type_annotation.node {
                Node::TypePredicate { parameter_name, .. } => {
                    assert_eq!(parameter_name.node, Node::Identifier(1));
                    assert_eq!((parameter_name.start, parameter_name.end), (8, 9));
                },
                _ => panic!("not a type guard"),
            }
        },
        _ => panic!("not wrapped"),
    }
}

#[test]
fn return_type_errors() {
    let (r, errs, pos) = return_type("A . B is T");
    assert!(r.is_none());
    assert_eq!(errs, vec![err(ErrorKind::Expected(TokenKind::identifier), 0, 5)]);
    assert_eq!(pos, 4);
    let (r, errs, _) = return_type("implies < U > x is T");
    assert!(r.is_none());
    assert_eq!(errs, vec![err(ErrorKind::ImpliesNeedsIdentifier, 14, 14)]);
    let (r, errs, pos) = return_type("implies x T");
    assert!(r.is_none());
    assert_eq!(errs, vec![err(ErrorKind::ImpliesExpectsIs, 10, 10)]);
    assert_eq!(pos, 2);
    let (r, errs, _) = return_type("asserts < U > x");
    assert!(r.is_none());
    assert_eq!(errs, vec![err(ErrorKind::Expected(TokenKind::identifier), 0, 13)]);
}

#[test]
fn reparse_as_identifier() {
    let src = "string";
    let mut p = parser(src);
    let t = p.parse_type_annotation_flow(None).unwrap();
    let id = p.reparse_type_annotation_as_identifier_flow(&t).unwrap();
    assert_eq!(id, Expr { parens: 0, node: Node::Identifier(0), start: 0, end: 6 });
    let src = "A < B >";
    let mut p = parser(src);
    let t = p.parse_type_annotation_flow(None).unwrap();
    assert!(p.reparse_type_annotation_as_identifier_flow(&t).is_none());
    assert_eq!(p.errors, vec![err(ErrorKind::Expected(TokenKind::identifier), 0, 7)]);
}

fn param(src: &str, hook: bool) -> (Option<String>, Vec<ParseError>, usize) {
    let mut p = parser(src);
    let r = if hook {
        p.parse_hook_type_annotation_param_flow()
    } else {
        p.parse_function_type_annotation_param_flow()
    };
    (r.map(|e| show(src, &e)), p.errors.clone(), p.lexer.cur_index())
}

#[test]
fn function_type_param_forms() {
    assert_eq!(param("x : T", false).0.unwrap(), "x: T");
    assert_eq!(param("x ? : T", false).0.unwrap(), "x?: T");
    assert_eq!(param("T", false).0.unwrap(), "T");
    let (r, errs, pos) = param("A < B > : T", false);
    assert!(r.is_none());
    assert_eq!(errs, vec![err(ErrorKind::Expected(TokenKind::identifier), 0, 7)]);
    assert_eq!(pos, 4);
    let (r, errs, _) = param("x ? T", false);
    assert!(r.is_none());
    assert_eq!(errs, vec![err(ErrorKind::Expected(TokenKind::colon), 4, 5)]);
}

#[test]
fn function_type_param_this_reported() {
    let (r, errs, _) = param("this : T", false);
    assert_eq!(r.unwrap(), "this: T");
    assert_eq!(errs, vec![err(ErrorKind::ThisConstraintNotFirst, 0, 4)]);
    let (r, errs, _) = param("this : T", true);
    assert_eq!(r.unwrap(), "this: T");
    assert_eq!(
        errs,
        vec![err(ErrorKind::HookThisConstraint, 0, 4), err(ErrorKind::ThisConstraintNotFirst, 0, 4)],
    );
}

fn params(src: &str, hook: bool) -> (Option<(Vec<String>, Option<String>, Option<String>)>, Vec<ParseError>, usize) {
    let mut p = parser(src);
    let mut ps = Vec::new();
    let mut this = None;
    let r = p.parse_function_type_annotation_params_flow(&mut ps, &mut this, hook);
    let out = r.map(|rest| {
        (
            ps.iter().map(|e| show(src, e)).collect(),
            this.as_ref().map(|e| show(src, e)),
            rest.as_ref().map(|e| show(src, e)),
        )
    });
    (out, p.errors.clone(), p.lexer.cur_index())
}

#[test]
fn function_type_params_list() {
    let (r, errs, pos) = params("( this : C , a : A , ... r : R )", false);
    let (ps, this, rest) = r.unwrap();
    assert_eq!(ps, vec!["a: A".to_string()]);
    assert_eq!(this.unwrap(), "C");
    assert_eq!(rest.unwrap(), "r: R");
    assert!(errs.is_empty());
    assert_eq!(pos, 14);
    let (r, _, _) = params("( A , B , )", false);
    assert_eq!(r.unwrap().0, vec!["A".to_string(), "B".to_string()]);
    let (r, _, pos) = params("( )", false);
    assert_eq!(r.unwrap(), (vec![], None, None));
    assert_eq!(pos, 2);
}

#[test]
fn function_type_params_errors() {
    let (r, errs, _) = params("( this ? : C )", false);
    let (ps, this, _) = r.unwrap();
    assert_eq!(ps, vec!["this?: C".to_string()]);
    assert!(this.is_none());
    assert_eq!(errs, vec![err(ErrorKind::ThisConstraintOptional, 2, 6)]);
    let (r, errs, _) = params("( this : C )", true);
    assert_eq!(r.unwrap().0, vec!["this: C".to_string()]);
    assert_eq!(
        errs,
        vec![err(ErrorKind::HookThisConstraint, 2, 6), err(ErrorKind::ThisConstraintNotFirst, 2, 6)],
    );
    let (r, errs, pos) = params("( A B )", false);
    assert!(r.is_none());
    assert_eq!(errs, vec![err(ErrorKind::Expected(TokenKind::r_paren), 4, 5)]);
    assert_eq!(pos, 2);
}

#[test]
fn function_type_params_keep_what_was_read() {
    let src = "( a : A , ? )";
    let mut p = parser(src);
    let mut ps = Vec::new();
    let mut this = None;
    assert!(p.parse_function_type_annotation_params_flow(&mut ps, &mut this, false).is_none());
    assert_eq!(ps.len(), 1);
    assert_eq!(show(src, &ps[0]), "a: A");
    assert_eq!(p.errors, vec![err(ErrorKind::UnexpectedTypeToken, 10, 11)]);
}

fn function(src: &str, hook: bool) -> (Option<String>, Vec<ParseError>, usize) {
    let mut p = parser(src);
    let r = if hook {
        p.parse_function_or_hook_type_annotation_flow(true)
    } else {
        p.parse_function_type_annotation_flow()
    };
    (r.map(|e| show(src, &e)), p.errors.clone(), p.lexer.cur_index())
}

#[test]
fn function_types() {
    assert_eq!(function("< T > ( x : T ) => T", false).0.unwrap(), "fn<T>(x: T) => T");
    assert_eq!(function("( ) => void", false).0.unwrap(), "fn() => void");
    assert_eq!(function("( x : A ) => x is B", false).0.unwrap(), "fn(x: A) => (x is B)");
    assert_eq!(function("( x : T , ... y ) => R", true).0.unwrap(), "hook(x: T, ...y) => R");
    let src = "( ) => void";
    let mut p = parser(src);
    let e = p.parse_function_type_annotation_flow().unwrap();
    assert_eq!((e.start, e.end), (0, 11));
}

#[test]
fn function_type_errors() {
    let (r, errs, pos) = function("( x )", false);
    assert!(r.is_none());
    assert_eq!(errs, vec![err(ErrorKind::Expected(TokenKind::equalgreater), 5, 5)]);
    assert_eq!(pos, 3);
    let (r, errs, _) = function("x", false);
    assert!(r.is_none());
    assert_eq!(errs, vec![err(ErrorKind::Expected(TokenKind::l_paren), 0, 1)]);
    let (r, errs, _) = function("< > ( ) => T", false);
    assert!(r.is_none());
    assert_eq!(errs, vec![err(ErrorKind::Expected(TokenKind::identifier), 2, 3)]);
}

#[test]
fn function_type_with_params_tail() {
    let src = "=> R";
    let mut p = parser(src);
    let ps = vec![Expr { parens: 0, node: Node::Identifier(1), start: 3, end: 4 }];
    let e = p.parse_function_type_annotation_with_params_flow(7, ps, None, None, None, false).unwrap();
    assert_eq!((e.start, e.end), (7, 4));
    match e.node {
        Node::FunctionTypeAnnotation { params: NodeList::Cons(a, rest), type_parameters: None, .. } => {
            assert_eq!(a.node, Node::Identifier(1));
            assert_eq!(*rest, NodeList::Nil);
        },
        _ => panic!("not a function type"),
    }
    let mut p = parser(src);
    let e = p.parse_function_type_annotation_with_params_flow(0, vec![], None, None, None, true).unwrap();
    assert!(matches!(e.node, Node::HookTypeAnnotation { params: NodeList::Nil, .. }));
}

fn methodish(src: &str) -> (Option<String>, Vec<ParseError>, usize) {
    let mut p = parser(src);
    let r = p.parse_methodish_type_annotation_flow(0, None);
    (r.map(|e| show(src, &e)), p.errors.clone(), p.lexer.cur_index())
}

#[test]
fn methodish_signatures() {
    assert_eq!(methodish("( x : T ) : R").0.unwrap(), "fn(x: T) => R");
    assert_eq!(methodish("( this : C ) : R").0.unwrap(), "fn(this: C) => R");
    let (r, errs, pos) = methodish("( x ) => R");
    assert!(r.is_none());
    assert_eq!(errs, vec![err(ErrorKind::Expected(TokenKind::colon), 6, 8)]);
    assert_eq!(pos, 3);
    let (r, errs, _) = methodish(": R");
    assert!(r.is_none());
    assert_eq!(errs, vec![err(ErrorKind::Expected(TokenKind::l_paren), 0, 1)]);
}

fn group(src: &str, allow: bool) -> (Option<String>, Vec<ParseError>, usize) {
    let mut p = parser(src);
    p.allow_anon_function_type = allow;
    let r = p.parse_function_or_group_type_annotation_flow();
    (r.map(|e| show(src, &e)), p.errors.clone(), p.lexer.cur_index())
}

#[test]
fn group_types() {
    let (r, errs, pos) = group("( T )", true);
    assert_eq!(r.unwrap(), "T");
    assert!(errs.is_empty());
    assert_eq!(pos, 3);
    assert_eq!(group("( T ) => U", true).0.unwrap(), "fn(T) => U");
    let (r, _, pos) = group("( T ) => U", false);
    assert_eq!(r.unwrap(), "T");
    assert_eq!(pos, 3);
    assert_eq!(group("( A , B ) => C", true).0.unwrap(), "fn(A, B) => C");
    assert_eq!(group("( ... A ) => B", true).0.unwrap(), "fn(...A) => B");
    assert_eq!(group("( x : A , ... r ) => B", false).0.unwrap(), "fn(x: A, ...r) => B");
    assert_eq!(group("( this : C ) => D", false).0.unwrap(), "fn(this: C) => D");
    assert_eq!(group("( ) => D", false).0.unwrap(), "fn() => D");
}

#[test]
fn group_type_errors() {
    let (r, errs, pos) = group("( x : T )", true);
    assert!(r.is_none());
    assert_eq!(errs, vec![err(ErrorKind::Expected(TokenKind::equalgreater), 9, 9)]);
    assert_eq!(pos, 5);
    let (r, errs, _) = group("( A , B )", false);
    assert!(r.is_none());
    assert_eq!(errs, vec![err(ErrorKind::Expected(TokenKind::r_paren), 4, 5)]);
    let (r, errs, _) = group("( ... A ) => B", false);
    assert!(r.is_none());
    assert_eq!(errs, vec![err(ErrorKind::UnexpectedTypeToken, 2, 5)]);
    let (r, errs, _) = group("( this ? : C ) => D", true);
    assert_eq!(r.unwrap(), "fn(this?: C) => D");
    assert_eq!(errs, vec![err(ErrorKind::ThisConstraintOptional, 2, 6)]);
}

fn key() -> Expr {
    Expr { parens: 0, node: Node::Identifier(100), start: 0, end: 1 }
}

#[test]
fn object_type_method() {
    let src = "< T > ( x : T ) : R";
    let mut p = parser(src);
    let e = p.parse_method_type_property_flow(0, true, key()).unwrap();
    assert!(p.errors.is_empty());
    assert_eq!((e.start, e.end), (0, 19));
    match e.node {
        Node::ObjectTypeProperty { value, method, property_kind, optional, is_static, proto, variance, .. } => {
            assert!(method && is_static && !optional && !proto && variance.is_none());
            assert_eq!(property_kind, PropertyKind::Init);
            assert_eq!(show(src, &value), "fn<T>(x: T) => R");
        },
        _ => panic!("not a property"),
    }
}

fn accessor(src: &str, is_getter: bool) -> (Option<Expr>, Vec<ParseError>) {
    let mut p = parser(src);
    let r = p.parse_get_or_set_type_property_flow(0, false, is_getter, key());
    (r, p.errors.clone())
}

#[test]
fn object_type_accessors() {
    let (r, errs) = accessor("( ) : R", true);
    assert!(errs.is_empty());
    match r.unwrap().node {
        Node::ObjectTypeProperty { property_kind, method, .. } => {
            assert_eq!(property_kind, PropertyKind::Getter);
            assert!(!method);
        },
        _ => panic!("not a property"),
    }
    let (r, errs) = accessor("( v : T ) : void", false);
    assert!(errs.is_empty());
    assert!(matches!(r.unwrap().node, Node::ObjectTypeProperty { property_kind: PropertyKind::Setter, .. }));
}

#[test]
fn object_type_accessor_errors() {
    let (r, errs) = accessor("( x ) : R", true);
    assert!(r.is_some());
    assert_eq!(errs, vec![err(ErrorKind::GetterParameters, 0, 9)]);
    let (r, errs) = accessor("( ) : R", false);
    assert!(r.is_some());
    assert_eq!(errs, vec![err(ErrorKind::SetterParameters, 0, 7)]);
    let (_, errs) = accessor("( a , b ) : R", false);
    assert_eq!(errs, vec![err(ErrorKind::SetterParameters, 0, 13)]);
    let (_, errs) = accessor("( this : C ) : R", true);
    assert_eq!(errs, vec![err(ErrorKind::AccessorThisConstraint, 2, 10)]);
}

#[test]
fn object_type_call_property() {
    let src = "( x : T ) : R";
    let mut p = parser(src);
    let e = p.parse_type_call_property_flow(0, false).unwrap();
    match e.node {
        Node::ObjectTypeCallProperty { value, is_static } => {
            assert!(!is_static);
            assert_eq!(show(src, &value), "fn(x: T) => R");
        },
        _ => panic!("not a call property"),
    }
    let mut p = parser("< > ( ) : R");
    assert!(p.parse_type_call_property_flow(0, true).is_none());
}

/// Parse an indexer whose bracket contents start `src`: the first type is
/// read, then the rest.
fn indexer(src: &str) -> (Option<Expr>, Vec<ParseError>) {
    let mut p = parser(src);
    let left = p.parse_type_annotation_flow(None).unwrap();
    let r = p.parse_type_indexer_property_flow(0, left, None, false);
    (r, p.errors.clone())
}

#[test]
fn object_type_indexers() {
    let src = "K ] : V";
    let (r, errs) = indexer(src);
    assert!(errs.is_empty());
    match r.unwrap().node {
        Node::ObjectTypeIndexer { key_name, key, value, .. } => {
            assert!(key_name.is_none());
            assert_eq!(show(src, &key), "K");
            assert_eq!(show(src, &value), "V");
        },
        _ => panic!("not an indexer"),
    }
    let src = "k : string ] : number";
    let (r, _) = indexer(src);
    match r.unwrap().node {
        Node::ObjectTypeIndexer { key_name: Some(n), key, .. } => {
            assert_eq!(n.node, Node::Identifier(0));
            assert_eq!(show(src, &key), "String");
        },
        _ => panic!("no name"),
    }
    let (r, errs) = indexer("A . B : K ] : V");
    assert!(r.is_none());
    assert_eq!(errs, vec![err(ErrorKind::Expected(TokenKind::identifier), 0, 5)]);
    let (r, errs) = indexer("K : V");
    assert!(r.is_none());
    assert_eq!(errs, vec![err(ErrorKind::Expected(TokenKind::r_square), 5, 5)]);
}

/// Parse a mapped type member whose key starts `src`, followed by `in`.
fn mapped(src: &str) -> (Option<Expr>, Vec<ParseError>) {
    let mut p = parser(src);
    let left = p.parse_type_annotation_flow(None).unwrap();
    p.advance();
    let r = p.parse_type_mapped_type_property_flow(0, left, None);
    (r, p.errors.clone())
}

#[test]
fn object_type_mapped_members() {
    let src = "K in O ] : T";
    let (r, errs) = mapped(src);
    assert!(errs.is_empty());
    let e = r.unwrap();
    assert_eq!((e.start, e.end), (0, 12));
    match e.node {
        Node::ObjectTypeMappedTypeProperty { key_tparam, prop_type, source_type, optionality, .. } => {
            assert_eq!(show(src, &key_tparam), "K");
            assert_eq!((key_tparam.start, key_tparam.end), (0, 1));
            assert_eq!(show(src, &source_type), "O");
            assert_eq!(show(src, &prop_type), "T");
            assert_eq!(optionality, None);
        },
        _ => panic!("not a mapped member"),
    }
    for (src, o) in [
        ("K in O ] + ? : T", MappedTypeOptional::PlusOptional),
        ("K in O ] - ? : T", MappedTypeOptional::MinusOptional),
        ("K in O ] ? : T", MappedTypeOptional::Optional),
    ] {
        let (r, _) = mapped(src);
        match r.unwrap().node {
            Node::ObjectTypeMappedTypeProperty { optionality, .. } => assert_eq!(optionality, Some(o)),
            _ => panic!("not a mapped member"),
        }
    }
    let (r, errs) = mapped("K in O ] + : T");
    assert!(r.is_none());
    assert_eq!(errs, vec![err(ErrorKind::Expected(TokenKind::question), 11, 12)]);
    let (r, errs) = mapped("A < B > in O ] : T");
    assert!(r.is_none());
    assert_eq!(errs, vec![err(ErrorKind::Expected(TokenKind::identifier), 0, 7)]);
}

#[test]
fn node_list_from_vec() {
    let v = vec![
        Expr { parens: 0, node: Node::Identifier(0), start: 0, end: 1 },
        Expr { parens: 0, node: Node::Identifier(1), start: 2, end: 3 },
    ];
    let l = list_from_vec(v);
    assert_eq!(
        l,
        NodeList::Cons(
            Box::new(Expr { parens: 0, node: Node::Identifier(0), start: 0, end: 1 }),
            Box::new(NodeList::Cons(Box::new(Expr { parens: 0, node: Node::Identifier(1), start: 2, end: 3 }), Box::new(NodeList::Nil))),
        ),
    );
    assert_eq!(list_from_vec(vec![]), NodeList::Nil);
}

fn declare_function(src: &str, hook: bool) -> (Option<Expr>, Vec<ParseError>, usize) {
    let mut p = parser(src);
    let r = if hook { p.parse_declare_hook_flow(100) } else { p.parse_declare_function_flow(100) };
    (r, p.errors.clone(), p.lexer.cur_index())
}

#[test]
fn declare_functions() {
    let src = "function f ( x : T ) : R ;";
    let (r, errs, pos) = declare_function(src, false);
    assert!(errs.is_empty());
    assert_eq!(pos, 10);
    let e = r.unwrap();
    assert_eq!((e.start, e.end), (100, 26));
    match e.node {
        Node::DeclareFunction { id, type_annotation, predicate } => {
            assert_eq!(*id, Expr { parens: 0, node: Node::Identifier(1), start: 9, end: 24 });
            assert_eq!((type_annotation.start, type_annotation.end), (11, 24));
            match type_annotation.node {
                Node::TypeAnnotation { type_annotation: t } => assert_eq!(show(src, &t), "fn(x: T) => R"),
                _ => panic!("not an annotation"),
            }
            assert!(predicate.is_none());
        },
        _ => panic!("not a declared function"),
    }
    let src = "function f < T > ( x : T ) : x is T";
    let (r, errs, _) = declare_function(src, false);
    assert!(errs.is_empty());
    assert!(matches!(r.unwrap().node, Node::DeclareFunction { .. }));
}

#[test]
fn declare_function_predicates() {
    let (r, errs, _) = declare_function("function f ( x : T ) : boolean %checks ;", false);
    assert!(errs.is_empty());
    match r.unwrap().node {
        Node::DeclareFunction { predicate: Some(p), .. } => {
            assert_eq!(*p, Expr { parens: 0, node: Node::InferredPredicate, start: 31, end: 38 });
        },
        _ => panic!("no predicate"),
    }
    let (r, errs, _) = declare_function("function f ( ) : R %checks ( x ) ;", false);
    assert!(r.is_none());
    assert_eq!(errs, vec![err(ErrorKind::Unsupported(UnsupportedSyntax::DeclaredPredicate), 27, 28)]);
}

#[test]
fn declare_function_errors() {
    let (r, errs, _) = declare_function("function f ( ) : R x", false);
    assert!(r.is_none());
    assert_eq!(errs, vec![err(ErrorKind::Expected(TokenKind::semi), 19, 20)]);
    let (r, errs, _) = declare_function("function ( ) : R ;", false);
    assert!(r.is_none());
    assert_eq!(errs, vec![err(ErrorKind::Expected(TokenKind::identifier), 9, 10)]);
    let (r, errs, _) = declare_function("function f ( ) => R ;", false);
    assert!(r.is_none());
    assert_eq!(errs, vec![err(ErrorKind::Expected(TokenKind::colon), 15, 17)]);
    let (r, errs, _) = declare_function("function f x ;", false);
    assert!(r.is_none());
    assert_eq!(errs, vec![err(ErrorKind::Expected(TokenKind::l_paren), 11, 12)]);
}

#[test]
fn declare_hooks() {
    let src = "hook useX ( this : C ) : R ;";
    let (r, errs, _) = declare_function(src, true);
    assert_eq!(
        errs,
        vec![err(ErrorKind::HookThisConstraint, 12, 16), err(ErrorKind::ThisConstraintNotFirst, 12, 16)],
    );
    match r.unwrap().node {
        Node::DeclareHook { type_annotation, .. } => match type_annotation.node {
            Node::TypeAnnotation { type_annotation: t } => assert_eq!(show(src, &t), "hook(this: C) => R"),
            _ => panic!("not an annotation"),
        },
        _ => panic!("not a declared hook"),
    }
    let (r, errs, _) = declare_function("hook useX ( ) : R %checks ;", true);
    assert!(r.is_none());
    assert_eq!(errs, vec![err(ErrorKind::Expected(TokenKind::semi), 18, 25)]);
}

#[test]
fn predicate_alone() {
    let mut p = parser("%checks");
    let e = p.parse_predicate_flow().unwrap();
    assert_eq!(e, Expr { parens: 0, node: Node::InferredPredicate, start: 0, end: 7 });
}
