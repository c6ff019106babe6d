use lib::js::expressions::{Expr, Node, NodeList};
use lib::js::flow::declarations::{RenderKind, TypeAliasKind};
use lib::js::flow::types::{primitive_type, PrimitiveType, UnsupportedSyntax};
use lib::js::{ErrorKind, JSParserImpl, ParseError, ParserOptions};
use lib::lexer::{JSLexer, Token};
use lib::token_kinds::TokenKind;

/// The kind of a token written as `w` in a test source.
fn kind_of(w: &str) -> TokenKind {
    match w {
        "+" => TokenKind::plus,
        "-" => TokenKind::minus,
        "*" => TokenKind::star,
        "/" => TokenKind::slash,
        "%" => TokenKind::percent,
        "**" => TokenKind::starstar,
        "??" => TokenKind::questionquestion,
        "||" => TokenKind::pipepipe,
        "&&" => TokenKind::ampamp,
        "|" => TokenKind::pipe,
        "^" => TokenKind::caret,
        "&" => TokenKind::amp,
        "==" => TokenKind::equalequal,
        "!=" => TokenKind::exclaimequal,
        "===" => TokenKind::equalequalequal,
        "<" => TokenKind::less,
        ">" => TokenKind::greater,
        "<=" => TokenKind::lessequal,
        "<<" => TokenKind::lessless,
        "=" => TokenKind::equal,
        "+=" => TokenKind::plusequal,
        "," => TokenKind::comma,
        ";" => TokenKind::semi,
        ":" => TokenKind::colon,
        "." => TokenKind::period,
        "(" => TokenKind::l_paren,
        ")" => TokenKind::r_paren,
        "{" => TokenKind::l_brace,
        "}" => TokenKind::r_brace,
        "{|" => TokenKind::l_bracepipe,
        "[" => TokenKind::l_square,
        "!" => TokenKind::exclaim,
        "~" => TokenKind::tilde,
        "++" => TokenKind::plusplus,
        "--" => TokenKind::minusminus,
        "in" => TokenKind::rw_in,
        "instanceof" => TokenKind::rw_instanceof,
        "typeof" => TokenKind::rw_typeof,
        "void" => TokenKind::rw_void,
        "delete" => TokenKind::rw_delete,
        "null" => TokenKind::rw_null,
        "true" => TokenKind::rw_true,
        "false" => TokenKind::rw_false,
        "this" => TokenKind::rw_this,
        "const" => TokenKind::rw_const,
        "extends" => TokenKind::rw_extends,
        "interface" => TokenKind::rw_interface,
        "super" => TokenKind::rw_super,
        "?" => TokenKind::question,
        _ => {
            let c = w.as_bytes()[0];
            if c.is_ascii_digit() {
                if w.ends_with('n') {
                    TokenKind::bigint_literal
                } else {
                    TokenKind::numeric_literal
                }
            } else if c == b'"' {
                TokenKind::string_literal
            } else if c == b'#' {
                TokenKind::private_identifier
            } else {
                TokenKind::identifier
            }
        },
    }
}

/// The tokens of `src`, whose tokens are separated by blanks; a line break
/// marks the next token.
fn lex(src: &str) -> Vec<Token> {
    let bytes = src.as_bytes();
    let mut toks = Vec::new();
    let mut i = 0;
    let mut nl = false;
    while i < bytes.len() {
        if bytes[i] == b' ' {
            i += 1;
            continue;
        }
        if bytes[i] == b'\n' {
            nl = true;
            i += 1;
            continue;
        }
        let start = i;
        while i < bytes.len() && bytes[i] != b' ' && bytes[i] != b'\n' {
            i += 1;
        }
        let w = &src[start..i];
        let kind = kind_of(w);
        let value = match kind {
            TokenKind::string_literal => w[1..w.len() - 1].as_bytes().to_vec(),
            TokenKind::private_identifier => w[1..].as_bytes().to_vec(),
            _ => w.as_bytes().to_vec(),
        };
        toks.push(Token { kind, value, start, end: i, new_line_before: nl });
        nl = false;
    }
    toks.push(Token {
        kind: TokenKind::eof,
        value: Vec::new(),
        start: bytes.len(),
        end: bytes.len(),
        new_line_before: nl,
    });
    toks
}

fn parser_with(src: &str, parse_flow: bool, parse_ts: bool) -> JSParserImpl {
    let lexer = JSLexer::new(lex(src)).unwrap();
    JSParserImpl::new(
        lexer,
        ParserOptions {
            parse_flow,
            parse_ts,
            parse_flow_component_syntax: false,
            parse_flow_records: false,
            param_await: false,
            param_yield: false,
            strict_mode: false,
        },
    )
}

fn spell(k: TokenKind) -> &'static str {
    match k {
        TokenKind::plus => "+",
        TokenKind::minus => "-",
        TokenKind::star => "*",
        TokenKind::slash => "/",
        TokenKind::starstar => "**",
        TokenKind::questionquestion => "??",
        TokenKind::pipepipe => "||",
        TokenKind::ampamp => "&&",
        TokenKind::pipe => "|",
        TokenKind::amp => "&",
        TokenKind::equalequal => "==",
        TokenKind::less => "<",
        TokenKind::lessless => "<<",
        TokenKind::rw_in => "in",
        TokenKind::rw_instanceof => "instanceof",
        TokenKind::rw_typeof => "typeof",
        TokenKind::exclaim => "!",
        TokenKind::plusplus => "++",
        TokenKind::minusminus => "--",
        _ => "?op",
    }
}

/// A bracketed rendering of a tree over the tokens `src` was split into.
fn show(src: &str, e: &Expr) -> String {
    let toks = lex(src);
    let text = |i: usize| src[toks[i].start..toks[i].end].to_string();
    match &e.node {
        Node::Identifier(i) | Node::NumericLiteral(i) | Node::StringLiteral(i)
        | Node::BigIntLiteral(i) | Node::PrivateName(i) => text(*i),
        Node::BooleanLiteral(b) => format!("{}", b),
        Node::NullLiteral => "null".to_string(),
        Node::ThisExpression => "this".to_string(),
        Node::UnaryExpression { operator, argument } => {
            format!("({} {})", spell(*operator), show(src, argument))
        },
        Node::UpdateExpression { operator, argument, prefix } => if *prefix {
            format!("({} {})", spell(*operator), show(src, argument))
        } else {
            format!("({} {})", show(src, argument), spell(*operator))
        },
        Node::BinaryExpression { operator, left, right }
        | Node::LogicalExpression { operator, left, right } => {
            format!("({} {} {})", spell(*operator), show(src, left), show(src, right))
        },
        Node::AsExpression { expression, type_annotation } => {
            format!("(as {} {})", show(src, expression), show(src, type_annotation))
        },
        Node::AsConstExpression { expression } => format!("(as-const {})", show(src, expression)),
        Node::TSAsExpression { expression, type_annotation } => {
            format!("(ts-as {} {})", show(src, expression), show(src, type_annotation))
        },
        Node::AwaitExpression { argument } => format!("(await {})", show(src, argument)),
        Node::MemberExpression { object, property, .. } => {
            format!("{}.{}", show(src, object), show(src, property))
        },
        Node::QualifiedTypeIdentifier { qualification, id } => {
            format!("{}.{}", show(src, qualification), show(src, id))
        },
        Node::GenericTypeAnnotation { id, type_parameters } => match type_parameters {
            None => show(src, id),
            Some(args) => format!("{}{}", show(src, id), show(src, args)),
        },
        Node::TypeParameterInstantiation { params } => {
            let mut parts = Vec::new();
            let mut l = params;
            while let NodeList::Cons(t, rest) = l {
                parts.push(show(src, t));
                l = rest;
            }
            format!("<{}>", parts.join(", "))
        },
        Node::ExistsTypeAnnotation => "*".to_string(),
        Node::PrimitiveTypeAnnotation(k, _) => format!("{:?}", k),
        Node::NullLiteralTypeAnnotation => "null-type".to_string(),
        Node::VoidTypeAnnotation => "void-type".to_string(),
        Node::StringLiteralTypeAnnotation(i) | Node::NumberLiteralTypeAnnotation(i)
        | Node::BigIntLiteralTypeAnnotation(i) => format!("'{}", text(*i)),
        Node::BooleanLiteralTypeAnnotation(b) => format!("'{}", b),
        Node::TypeAnnotation { type_annotation } => format!(": {}", show(src, type_annotation)),
        Node::Variance(k) => format!("{:?}", k),
        Node::TypeParameter { name, is_const, bound, variance, initializer, uses_extends_bound } => {
            let mut out = String::new();
            if *is_const {
                out.push_str("const ");
            }
            if let Some(v) = variance {
                out.push_str(&format!("{} ", show(src, v)));
            }
            out.push_str(&text(*name));
            if let Some(b) = bound {
                out.push_str(if *uses_extends_bound { " extends" } else { "" });
                out.push_str(&show(src, b));
            }
            if let Some(d) = initializer {
                out.push_str(&format!(" = {}", show(src, d)));
            }
            out
        },
        Node::TypeParameterDeclaration { params } => {
            let mut parts = Vec::new();
            let mut l = params;
            while let NodeList::Cons(t, rest) = l {
                parts.push(show(src, t));
                l = rest;
            }
            format!("<{}>", parts.join(", "))
        },
        Node::InterfaceExtends { id, type_parameters } => match type_parameters {
            None => format!("extends {}", show(src, id)),
            Some(a) => format!("extends {}{}", show(src, id), show(src, a)),
        },
        Node::ClassImplements { id, type_parameters } => match type_parameters {
            None => format!("implements {}", show(src, id)),
            Some(a) => format!("implements {}{}", show(src, id), show(src, a)),
        },
        Node::TypeAlias { id, type_parameters, right } => {
            format!("type {}{} = {}", show(src, id), opt(src, type_parameters), show(src, right))
        },
        Node::DeclareTypeAlias { id, type_parameters, right } => {
            format!("declare type {}{} = {}", show(src, id), opt(src, type_parameters), show(src, right))
        },
        Node::OpaqueType { id, type_parameters, impltype, lower_bound, upper_bound, supertype } => format!(
            "opaque type {}{} [{}|{}|{}] = {}",
            show(src, id),
            opt(src, type_parameters),
            opt(src, lower_bound),
            opt(src, upper_bound),
            opt(src, supertype),
            show(src, impltype),
        ),
        Node::DeclareOpaqueType { id, type_parameters, lower_bound, upper_bound, supertype } => format!(
            "declare opaque type {}{} [{}|{}|{}]",
            show(src, id),
            opt(src, type_parameters),
            opt(src, lower_bound),
            opt(src, upper_bound),
            opt(src, supertype),
        ),
        _ => "?".to_string(),
    }
}

fn opt(src: &str, e: &Option<Box<Expr>>) -> String {
    match e {
        None => String::new(),
        Some(e) => show(src, e),
    }
}


/// Parse a type annotation from the start of `src` under Flow: its
/// rendering, the diagnostics and where the parser stopped.
fn type_of(src: &str) -> (Option<String>, Vec<ParseError>, usize, Option<Expr>) {
    let mut p = parser_with(src, true, false);
    let r = p.parse_type_annotation_flow(None);
    (r.as_ref().map(|e| show(src, e)), p.errors.clone(), p.lexer.cur_index(), r)
}

fn unsupported(src: &str) -> ParseError {
    let (r, errs, _, _) = type_of(src);
    assert!(r.is_none());
    assert_eq!(errs.len(), 1);
    errs[0]
}

#[test]
fn type_primitive_names() {
    for (src, k) in [
        ("any", PrimitiveType::Any),
        ("mixed", PrimitiveType::Mixed),
        ("empty", PrimitiveType::Empty),
        ("unknown", PrimitiveType::Unknown),
        ("never", PrimitiveType::Never),
        ("undefined", PrimitiveType::Undefined),
        ("boolean", PrimitiveType::Boolean),
        ("bool", PrimitiveType::Boolean),
        ("number", PrimitiveType::Number),
        ("symbol", PrimitiveType::Symbol),
        ("string", PrimitiveType::String),
        ("bigint", PrimitiveType::BigInt),
    ] {
        let (_, errs, pos, r) = type_of(src);
        assert!(errs.is_empty());
        assert_eq!(pos, 1);
        assert_eq!(r.unwrap(), Expr { parens: 0, node: Node::PrimitiveTypeAnnotation(k, 0), start: 0, end: src.len() });
    }
}

#[test]
fn type_primitive_lookup() {
    assert_eq!(primitive_type(b"bool"), Some(PrimitiveType::Boolean));
    assert_eq!(primitive_type(b"string"), Some(PrimitiveType::String));
    assert_eq!(primitive_type(b"String"), None);
    assert_eq!(primitive_type(b""), None);
}

#[test]
fn type_literal_and_keyword_types() {
    assert_eq!(type_of("*").0.unwrap(), "*");
    assert_eq!(type_of("null").0.unwrap(), "null-type");
    assert_eq!(type_of("void").0.unwrap(), "void-type");
    assert_eq!(type_of("\"s\"").3.unwrap().node, Node::StringLiteralTypeAnnotation(0));
    assert_eq!(type_of("42").3.unwrap().node, Node::NumberLiteralTypeAnnotation(0));
    assert_eq!(type_of("42n").3.unwrap().node, Node::BigIntLiteralTypeAnnotation(0));
    assert_eq!(type_of("true").3.unwrap().node, Node::BooleanLiteralTypeAnnotation(true));
    assert_eq!(type_of("false").3.unwrap().node, Node::BooleanLiteralTypeAnnotation(false));
}

#[test]
fn type_generic_names() {
    let (s, errs, pos, r) = type_of("Foo");
    assert_eq!(s.unwrap(), "Foo");
    assert!(errs.is_empty());
    assert_eq!(pos, 1);
    assert_eq!(
        r.unwrap(),
        Expr { parens: 0,
            node: Node::GenericTypeAnnotation {
                id: Box::new(Expr { parens: 0, node: Node::Identifier(0), start: 0, end: 3 }),
                type_parameters: None,
            },
            start: 0,
            end: 3,
        },
    );
    assert_eq!(type_of("const").0.unwrap(), "const");
    assert_eq!(type_of("this").0.unwrap(), "this");
}

#[test]
fn type_qualified_name() {
    let (s, _, pos, r) = type_of("A . B . C");
    assert_eq!(s.unwrap(), "A.B.C");
    assert_eq!(pos, 5);
    let e = r.unwrap();
    assert_eq!((e.start, e.end), (0, 9));
    match e.node {
        Node::GenericTypeAnnotation { id, type_parameters: None } => {
            assert_eq!((id.start, id.end), (0, 9));
            match id.node {
                Node::QualifiedTypeIdentifier { qualification, id } => {
                    assert_eq!((qualification.start, qualification.end), (0, 5));
                    assert_eq!(*id, Expr { parens: 0, node: Node::Identifier(4), start: 8, end: 9 });
                },
                _ => panic!("not qualified"),
            }
        },
        _ => panic!("not generic"),
    }
}

#[test]
fn type_qualified_name_needs_name() {
    let (s, errs, pos, _) = type_of("A . 1");
    assert!(s.is_none());
    assert_eq!(errs, vec![ParseError { kind: ErrorKind::Expected(TokenKind::identifier), start: 4, end: 5 }]);
    assert_eq!(pos, 2);
}

#[test]
fn type_arguments() {
    let (s, errs, pos, r) = type_of("Map < K , V >");
    assert_eq!(s.unwrap(), "Map<K, V>");
    assert!(errs.is_empty());
    assert_eq!(pos, 6);
    let e = r.unwrap();
    assert_eq!((e.start, e.end), (0, 13));
    match e.node {
        Node::GenericTypeAnnotation { type_parameters: Some(args), .. } => {
            assert_eq!((args.start, args.end), (4, 13));
        },
        _ => panic!("no type arguments"),
    }
    assert_eq!(type_of("Array < Array < number > >").0.unwrap(), "Array<Array<Number>>");
    assert_eq!(type_of("A < B , >").0.unwrap(), "A<B>");
    assert_eq!(type_of("A < >").0.unwrap(), "A<>");
}

#[test]
fn type_arguments_need_closing() {
    let (s, errs, pos, _) = type_of("A < B");
    assert!(s.is_none());
    assert_eq!(errs, vec![ParseError { kind: ErrorKind::Expected(TokenKind::greater), start: 5, end: 5 }]);
    assert_eq!(pos, 3);
    let (s, errs, _, _) = type_of("A < B ; >");
    assert!(s.is_none());
    assert_eq!(errs, vec![ParseError { kind: ErrorKind::Expected(TokenKind::greater), start: 6, end: 7 }]);
}

#[test]
fn type_unsupported_forms() {
    let u = |x: UnsupportedSyntax| ErrorKind::Unsupported(x);
    assert_eq!(unsupported("< T >").kind, u(UnsupportedSyntax::FunctionType));
    assert_eq!(unsupported("( T )").kind, u(UnsupportedSyntax::GroupType));
    assert_eq!(unsupported("{ }").kind, u(UnsupportedSyntax::ObjectType));
    assert_eq!(unsupported("{| |}").kind, u(UnsupportedSyntax::ObjectType));
    assert_eq!(unsupported("interface { }").kind, u(UnsupportedSyntax::InterfaceType));
    assert_eq!(unsupported("typeof x").kind, u(UnsupportedSyntax::TypeofType));
    assert_eq!(unsupported("[ T ]").kind, u(UnsupportedSyntax::TupleType));
    assert_eq!(unsupported("keyof T").kind, u(UnsupportedSyntax::KeyofType));
    assert_eq!(unsupported("- 1").kind, u(UnsupportedSyntax::NegativeLiteralType));
    assert_eq!(
        unsupported("T extends U"),
        ParseError { kind: u(UnsupportedSyntax::ConditionalType), start: 2, end: 9 },
    );
}

#[test]
fn type_unexpected_token() {
    let (s, errs, pos, _) = type_of(";");
    assert!(s.is_none());
    assert_eq!(errs, vec![ParseError { kind: ErrorKind::UnexpectedTypeToken, start: 0, end: 1 }]);
    assert_eq!(pos, 0);
}

#[test]
fn type_wrapped_annotation() {
    let src = "x : number";
    let mut p = parser_with(src, true, false);
    p.advance();
    let (colon_start, _) = p.advance();
    let r = p.parse_type_annotation_flow(Some(colon_start)).unwrap();
    assert_eq!(show(src, &r), ": Number");
    assert_eq!((r.start, r.end), (2, 10));
}

#[test]
fn type_conditional_level_directly() {
    let mut p = parser_with("number extends", true, false);
    assert!(p.parse_conditional_type_annotation_flow().is_none());
    let mut p = parser_with("number ,", true, false);
    assert!(p.parse_conditional_type_annotation_flow().is_some());
    assert_eq!(p.lexer.cur_index(), 1);
}

#[test]
fn type_generic_and_args_directly() {
    let src = "T < U >";
    let mut p = parser_with(src, true, false);
    let g = p.parse_generic_type_flow().unwrap();
    assert_eq!(show(src, &g), "T<U>");
    let mut p = parser_with(src, true, false);
    p.advance();
    let a = p.parse_type_args_flow().unwrap();
    match a.node {
        Node::TypeParameterInstantiation { params: NodeList::Cons(t, rest) } => {
            assert_eq!(show(src, &t), "U");
            assert_eq!(*rest, NodeList::Nil);
        },
        _ => panic!("not type arguments"),
    }
    let mut p = parser_with("string", true, false);
    assert_eq!(
        p.parse_primary_type_annotation_flow().unwrap().node,
        Node::PrimitiveTypeAnnotation(PrimitiveType::String, 0),
    );
}

/// Parse a type alias from the start of `src`, as if `type` stood before it.
fn alias(src: &str, kind: TypeAliasKind) -> (Option<Expr>, Vec<ParseError>, usize) {
    let mut p = parser_with(src, true, false);
    let r = p.parse_type_alias_flow(0, kind);
    (r, p.errors.clone(), p.lexer.cur_index())
}

#[test]
fn type_alias_plain() {
    let src = "T = number ;";
    let (r, errs, pos) = alias(src, TypeAliasKind::Plain);
    let e = r.unwrap();
    assert_eq!(show(src, &e), "type T = Number");
    assert_eq!((e.start, e.end), (0, 12));
    assert!(errs.is_empty());
    assert_eq!(pos, 4);
}

#[test]
fn type_alias_without_semicolon() {
    let (r, errs, pos) = alias("T = number\nx", TypeAliasKind::Plain);
    assert_eq!(r.unwrap().end, 10);
    assert!(errs.is_empty());
    assert_eq!(pos, 3);
    let (r, errs, pos) = alias("T = number }", TypeAliasKind::Plain);
    assert_eq!(r.unwrap().end, 10);
    assert!(errs.is_empty());
    assert_eq!(pos, 3);
    let (r, _, _) = alias("T = number", TypeAliasKind::Plain);
    assert!(r.is_some());
}

#[test]
fn type_alias_errors() {
    let (r, errs, _) = alias("T = number x", TypeAliasKind::Plain);
    assert!(r.is_none());
    assert_eq!(errs, vec![ParseError { kind: ErrorKind::Expected(TokenKind::semi), start: 11, end: 12 }]);
    let (r, errs, _) = alias("= number", TypeAliasKind::Plain);
    assert!(r.is_none());
    assert_eq!(errs, vec![ParseError { kind: ErrorKind::Expected(TokenKind::identifier), start: 0, end: 1 }]);
    let (_, errs, _) = alias("T number", TypeAliasKind::Plain);
    assert_eq!(errs, vec![ParseError { kind: ErrorKind::Expected(TokenKind::equal), start: 2, end: 8 }]);
    let (_, errs, _) = alias("T = ;", TypeAliasKind::Plain);
    assert_eq!(errs, vec![ParseError { kind: ErrorKind::UnexpectedTypeToken, start: 4, end: 5 }]);
    let (_, errs, _) = alias("T < > = V ;", TypeAliasKind::Plain);
    assert_eq!(errs, vec![ParseError { kind: ErrorKind::Expected(TokenKind::identifier), start: 4, end: 5 }]);
}

#[test]
fn type_alias_with_parameters() {
    let src = "T < U , V = number > = Map < U , V > ;";
    let (r, errs, _) = alias(src, TypeAliasKind::Plain);
    assert!(errs.is_empty());
    assert_eq!(show(src, &r.unwrap()), "type T<U, V = Number> = Map<U, V>");
}

#[test]
fn type_alias_declare_and_opaque() {
    let src = "T = V ;";
    let (r, _, _) = alias(src, TypeAliasKind::Declare);
    assert_eq!(show(src, &r.unwrap()), "declare type T = V");
    let (r, _, _) = alias(src, TypeAliasKind::Opaque);
    assert_eq!(show(src, &r.unwrap()), "opaque type T [||] = V");
    let src = "T super A extends B = C ;";
    let (r, errs, pos) = alias(src, TypeAliasKind::Opaque);
    assert!(errs.is_empty());
    assert_eq!(pos, 8);
    let e = r.unwrap();
    assert_eq!(show(src, &e), "opaque type T [A|B|] = C");
    assert_eq!((e.start, e.end), (0, 25));
    let src = "T : S = C ;";
    let (r, _, _) = alias(src, TypeAliasKind::Opaque);
    assert_eq!(show(src, &r.unwrap()), "opaque type T [||S] = C");
    let src = "T extends B ;";
    let (r, _, _) = alias(src, TypeAliasKind::DeclareOpaque);
    assert_eq!(show(src, &r.unwrap()), "declare opaque type T [|B|]");
    let src = "T < X > ;";
    let (r, _, _) = alias(src, TypeAliasKind::DeclareOpaque);
    assert_eq!(show(src, &r.unwrap()), "declare opaque type T<X> [||]");
}

#[test]
fn type_alias_opaque_bound_errors() {
    let (r, errs, _) = alias("T super A : S = C ;", TypeAliasKind::Opaque);
    assert!(r.is_none());
    assert_eq!(errs, vec![ParseError { kind: ErrorKind::Expected(TokenKind::equal), start: 10, end: 11 }]);
    let (r, errs, _) = alias("T : S = C ;", TypeAliasKind::Plain);
    assert!(r.is_none());
    assert_eq!(errs, vec![ParseError { kind: ErrorKind::Expected(TokenKind::equal), start: 2, end: 3 }]);
    let (_, errs, _) = alias("T super ; = C", TypeAliasKind::Opaque);
    assert_eq!(errs, vec![ParseError { kind: ErrorKind::UnexpectedTypeToken, start: 8, end: 9 }]);
}

/// Parse type parameters at the start of `src`.
fn params_of(src: &str) -> (Option<String>, Vec<ParseError>, usize) {
    let mut p = parser_with(src, true, false);
    let r = p.parse_type_params_flow();
    (r.map(|e| show(src, &e)), p.errors.clone(), p.lexer.cur_index())
}

#[test]
fn type_params_simple() {
    let (s, errs, pos) = params_of("< T >");
    assert_eq!(s.unwrap(), "<T>");
    assert!(errs.is_empty());
    assert_eq!(pos, 3);
    assert_eq!(params_of("< T , >").0.unwrap(), "<T>");
    assert_eq!(params_of("< A , B , C >").0.unwrap(), "<A, B, C>");
}

#[test]
fn type_params_variance() {
    assert_eq!(params_of("< + T , - U >").0.unwrap(), "<Plus T, Minus U>");
    assert_eq!(params_of("< in T , out U >").0.unwrap(), "<In T, Out U>");
    assert_eq!(params_of("< in >").0.unwrap(), "<in>");
    assert_eq!(params_of("< out : X >").0.unwrap(), "<out: X>");
    assert_eq!(params_of("< X , in , Y >").0.unwrap(), "<X, in, Y>");
}

#[test]
fn type_params_bounds_and_defaults() {
    let src = "< const T extends U = V >";
    assert_eq!(params_of(src).0.unwrap(), "<const T extends: U = V>");
    let src = "< T : number >";
    let mut p = parser_with(src, true, false);
    let e = p.parse_type_params_flow().unwrap();
    assert_eq!((e.start, e.end), (0, 14));
    match e.node {
        Node::TypeParameterDeclaration { params: NodeList::Cons(t, _) } => {
            assert_eq!((t.start, t.end), (2, 12));
            match t.node {
                Node::TypeParameter { name, bound: Some(b), uses_extends_bound: false, .. } => {
                    assert_eq!(name, 1);
                    assert_eq!((b.start, b.end), (4, 12));
                },
                _ => panic!("no bound"),
            }
        },
        _ => panic!("not a declaration"),
    }
}

#[test]
fn type_params_errors() {
    let (s, errs, pos) = params_of("< >");
    assert!(s.is_none());
    assert_eq!(errs, vec![ParseError { kind: ErrorKind::Expected(TokenKind::identifier), start: 2, end: 3 }]);
    assert_eq!(pos, 1);
    let (s, errs, _) = params_of("< T U >");
    assert!(s.is_none());
    assert_eq!(errs, vec![ParseError { kind: ErrorKind::Expected(TokenKind::greater), start: 4, end: 5 }]);
    let (_, errs, _) = params_of("< T = >");
    assert_eq!(errs, vec![ParseError { kind: ErrorKind::UnexpectedTypeToken, start: 6, end: 7 }]);
}

#[test]
fn type_param_single() {
    let mut p = parser_with("- T : A = B ,", true, false);
    let e = p.parse_type_param_flow().unwrap();
    assert_eq!((e.start, e.end), (0, 11));
    assert_eq!(p.cur_kind(), TokenKind::comma);
}

#[test]
fn class_implements_entries() {
    let src = "Foo < T > ,";
    let mut p = parser_with(src, true, false);
    let e = p.parse_class_implements_flow().unwrap();
    assert_eq!(show(src, &e), "implements Foo<T>");
    assert_eq!((e.start, e.end), (0, 9));
    assert_eq!(p.cur_kind(), TokenKind::comma);
    let src = "Bar {";
    let mut p = parser_with(src, true, false);
    let e = p.parse_class_implements_flow().unwrap();
    assert_eq!(show(src, &e), "implements Bar");
    assert_eq!((e.start, e.end), (0, 3));
    let mut p = parser_with("Foo < ;", true, false);
    assert!(p.parse_class_implements_flow().is_none());
    assert_eq!(p.errors, vec![ParseError { kind: ErrorKind::UnexpectedTypeToken, start: 6, end: 7 }]);
}

#[test]
fn speculative_type_args_drop_diagnostics() {
    let mut p = parser_with("< T >", true, false);
    let (r, sp) = p.speculative_type_args();
    assert_eq!(show("< T >", &r.unwrap()), "<T>");
    assert_eq!(p.lexer.cur_index(), 3);
    p.lexer.restore(sp);
    assert_eq!(p.lexer.cur_index(), 0);
    let mut p = parser_with("< T ;", true, false);
    let (r, sp) = p.speculative_type_args();
    assert!(r.is_none());
    assert!(p.errors.is_empty());
    p.lexer.restore(sp);
    assert_eq!(p.cur_kind(), TokenKind::less);
}

#[test]
fn statement_end_rules() {
    let mut p = parser_with("; x", false, false);
    assert!(p.eat_semi());
    assert_eq!(p.lexer.cur_index(), 1);
    let mut p = parser_with("}", false, false);
    assert!(p.eat_semi());
    assert_eq!(p.lexer.cur_index(), 0);
    let mut p = parser_with("x y", false, false);
    p.advance();
    assert!(!p.eat_semi());
    assert_eq!(p.errors, vec![ParseError { kind: ErrorKind::Expected(TokenKind::semi), start: 2, end: 3 }]);
}

#[test]
fn eat_and_need() {
    let mut p = parser_with("= x", false, false);
    assert!(p.eat(TokenKind::equal));
    assert_eq!(p.lexer.cur_index(), 1);
    assert!(!p.eat(TokenKind::equal));
    assert_eq!(p.lexer.cur_index(), 1);
    assert_eq!(p.errors, vec![ParseError { kind: ErrorKind::Expected(TokenKind::equal), start: 2, end: 3 }]);
    assert!(p.need(TokenKind::identifier));
    assert!(p.check_and_eat(TokenKind::identifier));
    assert!(!p.check_and_eat(TokenKind::identifier));
    assert_eq!(p.cur_kind(), TokenKind::eof);
}

/// A parser over hand-made tokens `(kind, start, end)` for the words of
/// `src`, so that tokens can touch.
fn touching(src: &str, spans: &[(TokenKind, usize, usize)]) -> JSParserImpl {
    let mut toks: Vec<Token> = spans
        .iter()
        .map(|&(kind, start, end)| Token {
            kind,
            value: src[start..end].as_bytes().to_vec(),
            start,
            end,
            new_line_before: false,
        })
        .collect();
    toks.push(Token { kind: TokenKind::eof, value: Vec::new(), start: src.len(), end: src.len(), new_line_before: false });
    JSParserImpl::new(
        JSLexer::new(toks).unwrap(),
        ParserOptions {
            parse_flow: true,
            parse_ts: false,
            parse_flow_component_syntax: true,
            parse_flow_records: false,
            param_await: false,
            param_yield: false,
            strict_mode: false,
        },
    )
}

#[test]
fn render_type_plain() {
    let src = "renders T";
    let mut p = parser_with(src, true, false);
    let r = p.parse_component_render_type_flow(false).unwrap();
    assert_eq!((r.start, r.end), (0, 9));
    match r.node {
        Node::TypeOperator { render, type_annotation } => {
            assert_eq!(render, RenderKind::Renders);
            assert_eq!(show(src, &type_annotation), "T");
        },
        _ => panic!("not a render type"),
    }
    assert!(p.errors.is_empty());
}

#[test]
fn render_type_maybe_and_star() {
    let src = "renders? T";
    let mut p = touching(src, &[(TokenKind::identifier, 0, 7), (TokenKind::question, 7, 8), (TokenKind::identifier, 9, 10)]);
    let r = p.parse_component_render_type_flow(false).unwrap();
    assert!(matches!(r.node, Node::TypeOperator { render: RenderKind::RendersMaybe, .. }));
    assert_eq!((r.start, r.end), (0, 10));
    let src = "renders* T";
    let mut p = touching(src, &[(TokenKind::identifier, 0, 7), (TokenKind::star, 7, 8), (TokenKind::identifier, 9, 10)]);
    assert_eq!(p.parse_render_type_operator(), Some(RenderKind::RendersStar));
    assert_eq!(p.lexer.cur_index(), 2);
}

#[test]
fn render_type_operator_errors() {
    let src = "renders?? T";
    let mut p = touching(src, &[(TokenKind::identifier, 0, 7), (TokenKind::questionquestion, 7, 9), (TokenKind::identifier, 10, 11)]);
    assert!(p.parse_component_render_type_flow(false).is_none());
    assert_eq!(
        p.errors,
        vec![
            ParseError { kind: ErrorKind::Expected(TokenKind::question), start: 7, end: 9 },
            ParseError { kind: ErrorKind::UnexpectedTypeToken, start: 7, end: 9 },
        ],
    );
    let src = "renders ? T";
    let mut p = touching(src, &[(TokenKind::identifier, 0, 7), (TokenKind::question, 8, 9), (TokenKind::identifier, 10, 11)]);
    assert!(p.parse_component_render_type_flow(false).is_none());
    assert_eq!(p.errors, vec![ParseError { kind: ErrorKind::UnexpectedTypeToken, start: 8, end: 9 }]);
}

#[test]
fn render_type_body_precedence() {
    let src = "renders number extends";
    let mut p = parser_with(src, true, false);
    assert!(p.parse_component_render_type_flow(true).is_some());
    assert_eq!(p.cur_kind(), TokenKind::rw_extends);
    let mut p = parser_with(src, true, false);
    assert!(p.parse_component_render_type_flow(false).is_none());
}

#[test]
fn private_names() {
    let mut p = parser_with("#x", false, false);
    assert_eq!(p.parse_private_name().unwrap(), Expr { parens: 0, node: Node::PrivateName(0), start: 0, end: 2 });
    assert!(p.errors.is_empty());
    let mut p = parser_with("#constructor", false, false);
    assert!(p.parse_private_name().is_some());
    assert_eq!(p.errors, vec![ParseError { kind: ErrorKind::PrivateNameConstructor, start: 0, end: 12 }]);
}

#[test]
fn record_implements_entries() {
    let src = "R < T > {";
    let mut p = parser_with(src, true, false);
    let e = p.parse_record_declaration_implements_flow().unwrap();
    assert_eq!((e.start, e.end), (0, 7));
    match e.node {
        Node::RecordDeclarationImplements { id, type_parameters: Some(args) } => {
            assert_eq!(*id, Expr { parens: 0, node: Node::Identifier(0), start: 0, end: 1 });
            assert_eq!(show(src, &args), "<T>");
        },
        _ => panic!("not a record implements entry"),
    }
    let mut p = parser_with("R ,", true, false);
    let e = p.parse_record_declaration_implements_flow().unwrap();
    assert!(matches!(e.node, Node::RecordDeclarationImplements { type_parameters: None, .. }));
}

#[test]
fn object_type_plain_properties() {
    let src = "a ? : number ,";
    let mut p = parser_with(src, true, false);
    p.advance();
    let key = Expr { parens: 0, node: Node::Identifier(0), start: 0, end: 1 };
    let e = p.parse_type_property_flow(0, None, true, false, key).unwrap();
    assert_eq!((e.start, e.end), (0, 12));
    match e.node {
        Node::ObjectTypeProperty { value, optional, is_static, proto, variance, .. } => {
            assert_eq!(show(src, &value), "Number");
            assert!(optional && is_static && !proto);
            assert!(variance.is_none());
        },
        _ => panic!("not a property"),
    }
    assert_eq!(p.cur_kind(), TokenKind::comma);
    let mut p = parser_with("a : string", true, false);
    p.advance();
    let key = Expr { parens: 0, node: Node::Identifier(0), start: 0, end: 1 };
    let e = p.parse_type_property_flow(0, None, false, true, key).unwrap();
    assert!(matches!(e.node, Node::ObjectTypeProperty { optional: false, proto: true, .. }));
    let mut p = parser_with("a ? number", true, false);
    p.advance();
    let key = Expr { parens: 0, node: Node::Identifier(0), start: 0, end: 1 };
    assert!(p.parse_type_property_flow(0, None, false, false, key).is_none());
    assert_eq!(p.errors, vec![ParseError { kind: ErrorKind::Expected(TokenKind::colon), start: 4, end: 10 }]);
}
