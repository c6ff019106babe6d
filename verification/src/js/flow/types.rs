//! Flow type annotations: the primary types (primitive names, literal types,
//! `*`, `null`, `void`), generic type references with qualified names and
//! type arguments, and the conditional-type level above them. Type forms
//! this grammar does not cover (tuple, `typeof`, `keyof`, interface and
//! conditional types, negative literal types) are reported as unsupported,
//! and so are function, parenthesized and object types where a type
//! annotation starts: those are parsed by their own entry points in
//! `function_types` and `object_types`, which callers reach directly.

use vstd::prelude::*;

use crate::js::expressions::{spec_prev_end, Expr, Node, NodeList};
use crate::js::flow::declarations::err_at;
use crate::js::{bytes_eq, ErrorKind, JSParserImpl, ParseError};
use crate::lexer::{step, Token};
use crate::token_kinds::{is_reserved_word, spec_is_reserved_word, TokenKind};

verus! {

/// The built-in type named by an identifier.
#[derive(Clone, Copy, Debug, PartialEq, Eq, Structural)]
pub enum PrimitiveType {
    Any,
    Mixed,
    Empty,
    Unknown,
    Never,
    Undefined,
    Boolean,
    Number,
    Symbol,
    String,
    BigInt,
}

/// A form of type syntax that the type grammar recognises but does not
/// parse; it is reported where it starts.
#[derive(Clone, Copy, Debug, PartialEq, Eq, Structural)]
pub enum UnsupportedSyntax {
    /// A function type starting with `<`.
    FunctionType,
    /// A parenthesized type or a function type starting with `(`.
    GroupType,
    /// An object type `{ ... }` or `{| ... |}`.
    ObjectType,
    /// An `interface { ... }` type.
    InterfaceType,
    /// A `typeof` type.
    TypeofType,
    /// A tuple type `[ ... ]`.
    TupleType,
    /// A `keyof` type.
    KeyofType,
    /// A negated number or bigint literal type.
    NegativeLiteralType,
    /// A conditional type `A extends B ? C : D`.
    ConditionalType,
    /// A computed property key `[expr]`.
    ComputedPropertyKey,
    /// A declared predicate `%checks(expr)`.
    DeclaredPredicate,
    /// A `component` declaration.
    ComponentDeclaration,
    /// A `hook` declaration.
    HookDeclaration,
    /// A statement in the body of a `declare module`.
    ModuleBodyStatement,
    /// A `declare namespace` declaration.
    DeclareNamespace,
    /// A parenthesized expression `( e )` whose contents are not a postfix
    /// expression (a member chain over a primary expression).
    ParenthesizedExpression,
    /// A computed member `object[property]`.
    ComputedMember,
    /// A call `callee(arguments)`.
    CallExpression,
    /// An optional chain `object?.property`.
    OptionalChain,
    /// A tagged template.
    TaggedTemplate,
    /// A `new` expression.
    NewExpression,
    /// A `yield` expression.
    YieldExpression,
    /// A rest element `...x` in a parenthesized list.
    RestElement,
    /// An arrow function `params => body`.
    ArrowFunction,
    /// An array literal `[ ... ]`.
    ArrayLiteral,
    /// An object literal `{ ... }`.
    ObjectLiteral,
    /// A template literal.
    TemplateLiteral,
    /// A function expression, `async` or not.
    FunctionExpression,
    /// A class expression, with its decorators.
    ClassExpression,
    /// The initializer `= value` of a record property.
    PropertyInitializer,
    /// A method of a record.
    RecordMethod,
}

/// The primitive type named `name`, if it names one (`bool` is a synonym
/// of `boolean`).
pub open spec fn spec_primitive_type(name: Seq<u8>) -> Option<PrimitiveType> {
    if name == seq![97u8, 110u8, 121u8] {
        Some(PrimitiveType::Any)
    } else if name == seq![109u8, 105u8, 120u8, 101u8, 100u8] {
        Some(PrimitiveType::Mixed)
    } else if name == seq![101u8, 109u8, 112u8, 116u8, 121u8] {
        Some(PrimitiveType::Empty)
    } else if name == seq![117u8, 110u8, 107u8, 110u8, 111u8, 119u8, 110u8] {
        Some(PrimitiveType::Unknown)
    } else if name == seq![110u8, 101u8, 118u8, 101u8, 114u8] {
        Some(PrimitiveType::Never)
    } else if name == seq![117u8, 110u8, 100u8, 101u8, 102u8, 105u8, 110u8, 101u8, 100u8] {
        Some(PrimitiveType::Undefined)
    } else if name == seq![98u8, 111u8, 111u8, 108u8, 101u8, 97u8, 110u8] || name == seq![
        98u8,
        111u8,
        111u8,
        108u8,
    ] {
        Some(PrimitiveType::Boolean)
    } else if name == seq![110u8, 117u8, 109u8, 98u8, 101u8, 114u8] {
        Some(PrimitiveType::Number)
    } else if name == seq![115u8, 121u8, 109u8, 98u8, 111u8, 108u8] {
        Some(PrimitiveType::Symbol)
    } else if name == seq![115u8, 116u8, 114u8, 105u8, 110u8, 103u8] {
        Some(PrimitiveType::String)
    } else if name == seq![98u8, 105u8, 103u8, 105u8, 110u8, 116u8] {
        Some(PrimitiveType::BigInt)
    } else {
        None
    }
}

/// The name `keyof`.
pub open spec fn spec_keyof_name() -> Seq<u8> {
    seq![107u8, 101u8, 121u8, 111u8, 102u8]
}

/// Whether a token of kind `kind` can name a type: an identifier or a
/// reserved word.
pub open spec fn spec_is_type_name(kind: TokenKind) -> bool {
    kind == TokenKind::identifier || spec_is_reserved_word(kind)
}

/// The one-token type `n` made of the token at `p`.
pub open spec fn spec_leaf(toks: Seq<Token>, p: int, n: Node) -> (Result<Expr, ParseError>, int) {
    (Ok(Expr { parens: 0, node: n, start: toks[p].start, end: toks[p].end }), step(toks, p))
}

/// The report of unsupported syntax `u` starting at the token at `p`.
pub open spec fn spec_unsupported(toks: Seq<Token>, p: int, u: UnsupportedSyntax) -> (Result<Expr, ParseError>, int) {
    (Err(err_at(ErrorKind::Unsupported(u), toks[p])), p)
}

/// The name `id` (starting at `start`) continued from `q` by `.name`
/// parts, each making a qualified name. Gives the name, or the diagnostic
/// for a `.` not followed by a name, and the position after it.
pub open spec fn spec_qualified(toks: Seq<Token>, q: int, id: Expr, start: usize) -> (Result<Expr, ParseError>, int)
    decreases toks.len() - q,
{
    if !(0 <= q < toks.len()) || toks[q].kind != TokenKind::period {
        (Ok(id), q)
    } else {
        let q2 = step(toks, q);
        if !(q < q2) {
            (Ok(id), q)
        } else if !spec_is_type_name(toks[q2].kind) {
            (Err(err_at(ErrorKind::Expected(TokenKind::identifier), toks[q2])), q2)
        } else {
            let part = Expr { parens: 0, node: Node::Identifier(q2 as usize), start: toks[q2].start, end: toks[q2].end };
            let id2 = Expr { parens: 0,
                node: Node::QualifiedTypeIdentifier { qualification: Box::new(id), id: Box::new(part) },
                start,
                end: toks[q2].end,
            };
            spec_qualified(toks, step(toks, q2), id2, start)
        }
    }
}

/// The types of a type-argument list from `q` up to its closing `>`
/// (excluded), separated by commas, a trailing comma allowed.
pub open spec fn spec_type_list(toks: Seq<Token>, q: int) -> (Result<NodeList, ParseError>, int)
    decreases toks.len() - q, 4int,
{
    if !(0 <= q < toks.len()) || toks[q].kind == TokenKind::greater {
        (Ok(NodeList::Nil), q)
    } else {
        match spec_type(toks, q) {
            (Err(e), r) => (Err(e), r),
            (Ok(t), r) => {
                if q < r < toks.len() && toks[r].kind == TokenKind::comma {
                    match spec_type_list(toks, step(toks, r)) {
                        (Err(e), s) => (Err(e), s),
                        (Ok(rest), s) => (Ok(NodeList::Cons(Box::new(t), Box::new(rest))), s),
                    }
                } else {
                    (Ok(NodeList::Cons(Box::new(t), Box::new(NodeList::Nil))), r)
                }
            },
        }
    }
}

/// A type at `p`: a primary type, which may not be followed by `extends`
/// (a conditional type).
pub open spec fn spec_type(toks: Seq<Token>, p: int) -> (Result<Expr, ParseError>, int)
    decreases toks.len() - p, 3int,
{
    match spec_primary_type(toks, p) {
        (Err(e), r) => (Err(e), r),
        (Ok(t), r) => if toks[r].kind == TokenKind::rw_extends {
            spec_unsupported(toks, r, UnsupportedSyntax::ConditionalType)
        } else {
            (Ok(t), r)
        },
    }
}

/// A primary type at `p`: `*`; a primitive type name; `null`; `void`; a
/// string, number, bigint or boolean literal type; a generic type named by
/// any other identifier or reserved word. Gives the type or the diagnostic,
/// and the position after it (or where the diagnostic was raised).
pub open spec fn spec_primary_type(toks: Seq<Token>, p: int) -> (Result<Expr, ParseError>, int)
    decreases toks.len() - p, 2int,
{
    let t = toks[p];
    match t.kind {
        TokenKind::star => spec_leaf(toks, p, Node::ExistsTypeAnnotation),
        TokenKind::less => spec_unsupported(toks, p, UnsupportedSyntax::FunctionType),
        TokenKind::l_paren => spec_unsupported(toks, p, UnsupportedSyntax::GroupType),
        TokenKind::l_brace | TokenKind::l_bracepipe => spec_unsupported(toks, p, UnsupportedSyntax::ObjectType),
        TokenKind::rw_interface => spec_unsupported(toks, p, UnsupportedSyntax::InterfaceType),
        TokenKind::rw_typeof => spec_unsupported(toks, p, UnsupportedSyntax::TypeofType),
        TokenKind::l_square => spec_unsupported(toks, p, UnsupportedSyntax::TupleType),
        TokenKind::identifier => match spec_primitive_type(t.value@) {
            Some(k) => spec_leaf(toks, p, Node::PrimitiveTypeAnnotation(k, p as usize)),
            None => if t.value@ == spec_keyof_name() {
                spec_unsupported(toks, p, UnsupportedSyntax::KeyofType)
            } else {
                spec_generic_type(toks, p)
            },
        },
        TokenKind::rw_null => spec_leaf(toks, p, Node::NullLiteralTypeAnnotation),
        TokenKind::rw_void => spec_leaf(toks, p, Node::VoidTypeAnnotation),
        TokenKind::string_literal => spec_leaf(toks, p, Node::StringLiteralTypeAnnotation(p as usize)),
        TokenKind::numeric_literal => spec_leaf(toks, p, Node::NumberLiteralTypeAnnotation(p as usize)),
        TokenKind::bigint_literal => spec_leaf(toks, p, Node::BigIntLiteralTypeAnnotation(p as usize)),
        TokenKind::minus => spec_unsupported(toks, p, UnsupportedSyntax::NegativeLiteralType),
        TokenKind::rw_true => spec_leaf(toks, p, Node::BooleanLiteralTypeAnnotation(true)),
        TokenKind::rw_false => spec_leaf(toks, p, Node::BooleanLiteralTypeAnnotation(false)),
        _ => if spec_is_reserved_word(t.kind) {
            spec_generic_type(toks, p)
        } else {
            (Err(err_at(ErrorKind::UnexpectedTypeToken, t)), p)
        },
    }
}

/// A generic type at `p`, whose token names a type: a possibly qualified
/// name, then type arguments when `<` follows.
pub open spec fn spec_generic_type(toks: Seq<Token>, p: int) -> (Result<Expr, ParseError>, int)
    decreases toks.len() - p, 1int,
{
    let t = toks[p];
    let id0 = Expr { parens: 0, node: Node::Identifier(p as usize), start: t.start, end: t.end };
    match spec_qualified(toks, step(toks, p), id0, t.start) {
        (Err(e), q) => (Err(e), q),
        (Ok(id), q) => if p < q < toks.len() && toks[q].kind == TokenKind::less {
            match spec_type_args(toks, q) {
                (Err(e), r) => (Err(e), r),
                (Ok(args), r) => (Ok(Expr { parens: 0,
                    node: Node::GenericTypeAnnotation { id: Box::new(id), type_parameters: Some(Box::new(args)) },
                    start: t.start,
                    end: spec_prev_end(toks, r),
                }), r),
            }
        } else {
            (Ok(Expr { parens: 0,
                node: Node::GenericTypeAnnotation { id: Box::new(id), type_parameters: None },
                start: t.start,
                end: spec_prev_end(toks, q),
            }), q)
        },
    }
}

/// Type arguments `<T, U>` at `p`, where the token is `<`.
pub open spec fn spec_type_args(toks: Seq<Token>, p: int) -> (Result<Expr, ParseError>, int)
    decreases toks.len() - p, 0int,
{
    let q = step(toks, p);
    if !(p < q) {
        (Err(err_at(ErrorKind::Expected(TokenKind::greater), toks[p])), p)
    } else {
        match spec_type_list(toks, q) {
            (Err(e), s) => (Err(e), s),
            (Ok(list), s) => if toks[s].kind == TokenKind::greater {
                (Ok(Expr { parens: 0,
                    node: Node::TypeParameterInstantiation { params: list },
                    start: toks[p].start,
                    end: toks[s].end,
                }), step(toks, s))
            } else {
                (Err(err_at(ErrorKind::Expected(TokenKind::greater), toks[s])), s)
            },
        }
    }
}

/// A type annotation at `p`; with `wrapped_start`, wrapped in a type
/// annotation node from there to the end of the type.
pub open spec fn spec_type_annotation_flow(toks: Seq<Token>, p: int, wrapped_start: Option<usize>) -> (Result<Expr, ParseError>, int) {
    match spec_type(toks, p) {
        (Err(e), r) => (Err(e), r),
        (Ok(t), r) => match wrapped_start {
            None => (Ok(t), r),
            Some(s) => (Ok(Expr { parens: 0,
                node: Node::TypeAnnotation { type_annotation: Box::new(t) },
                start: s,
                end: spec_prev_end(toks, r),
            }), r),
        },
    }
}

/// The primitive type named `name`, if it names one.
pub fn primitive_type(name: &[u8]) -> (r: Option<PrimitiveType>)
    ensures
        r == spec_primitive_type(name@),
{
    let any: [u8; 3] = [97u8, 110u8, 121u8];
    let mixed: [u8; 5] = [109u8, 105u8, 120u8, 101u8, 100u8];
    let empty: [u8; 5] = [101u8, 109u8, 112u8, 116u8, 121u8];
    let unknown: [u8; 7] = [117u8, 110u8, 107u8, 110u8, 111u8, 119u8, 110u8];
    let never: [u8; 5] = [110u8, 101u8, 118u8, 101u8, 114u8];
    let undefined: [u8; 9] = [117u8, 110u8, 100u8, 101u8, 102u8, 105u8, 110u8, 101u8, 100u8];
    let boolean: [u8; 7] = [98u8, 111u8, 111u8, 108u8, 101u8, 97u8, 110u8];
    let bool_: [u8; 4] = [98u8, 111u8, 111u8, 108u8];
    let number: [u8; 6] = [110u8, 117u8, 109u8, 98u8, 101u8, 114u8];
    let symbol: [u8; 6] = [115u8, 121u8, 109u8, 98u8, 111u8, 108u8];
    let string: [u8; 6] = [115u8, 116u8, 114u8, 105u8, 110u8, 103u8];
    let bigint: [u8; 6] = [98u8, 105u8, 103u8, 105u8, 110u8, 116u8];
    proof {
        assert(any@ =~= seq![97u8, 110u8, 121u8]);
        assert(mixed@ =~= seq![109u8, 105u8, 120u8, 101u8, 100u8]);
        assert(empty@ =~= seq![101u8, 109u8, 112u8, 116u8, 121u8]);
        assert(unknown@ =~= seq![117u8, 110u8, 107u8, 110u8, 111u8, 119u8, 110u8]);
        assert(never@ =~= seq![110u8, 101u8, 118u8, 101u8, 114u8]);
        assert(undefined@ =~= seq![117u8, 110u8, 100u8, 101u8, 102u8, 105u8, 110u8, 101u8, 100u8]);
        assert(boolean@ =~= seq![98u8, 111u8, 111u8, 108u8, 101u8, 97u8, 110u8]);
        assert(bool_@ =~= seq![98u8, 111u8, 111u8, 108u8]);
        assert(number@ =~= seq![110u8, 117u8, 109u8, 98u8, 101u8, 114u8]);
        assert(symbol@ =~= seq![115u8, 121u8, 109u8, 98u8, 111u8, 108u8]);
        assert(string@ =~= seq![115u8, 116u8, 114u8, 105u8, 110u8, 103u8]);
        assert(bigint@ =~= seq![98u8, 105u8, 103u8, 105u8, 110u8, 116u8]);
    }
    if bytes_eq(name, any.as_slice()) {
        Some(PrimitiveType::Any)
    } else if bytes_eq(name, mixed.as_slice()) {
        Some(PrimitiveType::Mixed)
    } else if bytes_eq(name, empty.as_slice()) {
        Some(PrimitiveType::Empty)
    } else if bytes_eq(name, unknown.as_slice()) {
        Some(PrimitiveType::Unknown)
    } else if bytes_eq(name, never.as_slice()) {
        Some(PrimitiveType::Never)
    } else if bytes_eq(name, undefined.as_slice()) {
        Some(PrimitiveType::Undefined)
    } else if bytes_eq(name, boolean.as_slice()) || bytes_eq(name, bool_.as_slice()) {
        Some(PrimitiveType::Boolean)
    } else if bytes_eq(name, number.as_slice()) {
        Some(PrimitiveType::Number)
    } else if bytes_eq(name, symbol.as_slice()) {
        Some(PrimitiveType::Symbol)
    } else if bytes_eq(name, string.as_slice()) {
        Some(PrimitiveType::String)
    } else if bytes_eq(name, bigint.as_slice()) {
        Some(PrimitiveType::BigInt)
    } else {
        None
    }
}

impl JSParserImpl {
    /// Parse a type annotation; with `wrapped_start`, wrap it in a type
    /// annotation node that starts there (where the `:` before it stood).
    pub fn parse_type_annotation_flow(&mut self, wrapped_start: Option<usize>) -> (r: Option<Expr>)
        requires
            old(self).lexer@.is_fresh(),
        ensures
            ({
                let (res, q) = spec_type_annotation_flow(old(self).lexer@.tokens, old(self).lexer@.pos, wrapped_start);
                &&& final(self).options == old(self).options
                &&& final(self).lexer@ == old(self).lexer@.at(q)
                &&& match res {
                    Ok(e) => r == Some(e) && final(self).errors@ == old(self).errors@,
                    Err(e) => r is None && final(self).errors@ == old(self).errors@.push(e),
                }
            }),
            r is Some ==> final(self).lexer@.pos > old(self).lexer@.pos,
        decreases old(self).lexer@.tokens.len() - old(self).lexer@.pos, 4int,
    {
        let t = match self.parse_conditional_type_annotation_flow() {
            Some(t) => t,
            None => return None,
        };
        match wrapped_start {
            None => Some(t),
            Some(s) => {
                let end = self.lexer.prev_token_end();
                Some(Expr { parens: 0, node: Node::TypeAnnotation { type_annotation: Box::new(t) }, start: s, end })
            },
        }
    }

    /// Parse a type that may not be followed by `extends`: conditional
    /// types are reported as unsupported.
    pub fn parse_conditional_type_annotation_flow(&mut self) -> (r: Option<Expr>)
        requires
            old(self).lexer@.is_fresh(),
        ensures
            ({
                let (res, q) = spec_type(old(self).lexer@.tokens, old(self).lexer@.pos);
                &&& final(self).options == old(self).options
                &&& final(self).lexer@ == old(self).lexer@.at(q)
                &&& match res {
                    Ok(e) => r == Some(e) && final(self).errors@ == old(self).errors@,
                    Err(e) => r is None && final(self).errors@ == old(self).errors@.push(e),
                }
            }),
            r is Some ==> final(self).lexer@.pos > old(self).lexer@.pos,
        decreases old(self).lexer@.tokens.len() - old(self).lexer@.pos, 3int,
    {
        let t = match self.parse_primary_type_annotation_flow() {
            Some(t) => t,
            None => return None,
        };
        if self.check(TokenKind::rw_extends) {
            self.error_cur(ErrorKind::Unsupported(UnsupportedSyntax::ConditionalType));
            return None;
        }
        Some(t)
    }

    /// Parse a primary type: `*`, a primitive type name, `null`, `void`, a
    /// string, number, bigint or boolean literal type, or a generic type
    /// named by any other identifier or reserved word. Type forms that are
    /// not parsed here are reported as unsupported; a token that cannot
    /// start a type is reported as unexpected.
    pub fn parse_primary_type_annotation_flow(&mut self) -> (r: Option<Expr>)
        requires
            old(self).lexer@.is_fresh(),
        ensures
            ({
                let (res, q) = spec_primary_type(old(self).lexer@.tokens, old(self).lexer@.pos);
                &&& final(self).options == old(self).options
                &&& final(self).lexer@ == old(self).lexer@.at(q)
                &&& match res {
                    Ok(e) => r == Some(e) && final(self).errors@ == old(self).errors@,
                    Err(e) => r is None && final(self).errors@ == old(self).errors@.push(e),
                }
            }),
            r is Some ==> final(self).lexer@.pos > old(self).lexer@.pos,
        decreases old(self).lexer@.tokens.len() - old(self).lexer@.pos, 2int,
    {
        proof { use_type_invariant(&self.lexer); }
        assert(old(self).lexer@.at(old(self).lexer@.pos) == old(self).lexer@);
        let idx = self.lexer.cur_index();
        let (start, end) = self.lexer.cur_range();
        let kind = self.cur_kind();
        let unsupported = match kind {
            TokenKind::less => Some(UnsupportedSyntax::FunctionType),
            TokenKind::l_paren => Some(UnsupportedSyntax::GroupType),
            TokenKind::l_brace | TokenKind::l_bracepipe => Some(UnsupportedSyntax::ObjectType),
            TokenKind::rw_interface => Some(UnsupportedSyntax::InterfaceType),
            TokenKind::rw_typeof => Some(UnsupportedSyntax::TypeofType),
            TokenKind::l_square => Some(UnsupportedSyntax::TupleType),
            TokenKind::minus => Some(UnsupportedSyntax::NegativeLiteralType),
            _ => None,
        };
        if let Some(u) = unsupported {
            self.error_cur(ErrorKind::Unsupported(u));
            return None;
        }
        let node = match kind {
            TokenKind::star => Node::ExistsTypeAnnotation,
            TokenKind::identifier => {
                match primitive_type(self.lexer.token().value.as_slice()) {
                    Some(k) => Node::PrimitiveTypeAnnotation(k, idx),
                    None => {
                        let keyof: [u8; 5] = [107u8, 101u8, 121u8, 111u8, 102u8];
                        assert(keyof@ =~= spec_keyof_name());
                        if bytes_eq(self.lexer.token().value.as_slice(), keyof.as_slice()) {
                            self.error_cur(ErrorKind::Unsupported(UnsupportedSyntax::KeyofType));
                            return None;
                        }
                        return self.parse_generic_type_flow();
                    },
                }
            },
            TokenKind::rw_null => Node::NullLiteralTypeAnnotation,
            TokenKind::rw_void => Node::VoidTypeAnnotation,
            TokenKind::string_literal => Node::StringLiteralTypeAnnotation(idx),
            TokenKind::numeric_literal => Node::NumberLiteralTypeAnnotation(idx),
            TokenKind::bigint_literal => Node::BigIntLiteralTypeAnnotation(idx),
            TokenKind::rw_true => Node::BooleanLiteralTypeAnnotation(true),
            TokenKind::rw_false => Node::BooleanLiteralTypeAnnotation(false),
            _ => {
                if is_reserved_word(kind) {
                    return self.parse_generic_type_flow();
                }
                self.error_cur(ErrorKind::UnexpectedTypeToken);
                return None;
            },
        };
        self.advance();
        Some(Expr { parens: 0, node, start, end })
    }

    /// Parse a generic type, with the current token (an identifier or a
    /// reserved word) naming it: a name qualified by `.name` parts, then
    /// type arguments when `<` follows.
    pub fn parse_generic_type_flow(&mut self) -> (r: Option<Expr>)
        requires
            old(self).lexer@.is_fresh(),
            spec_is_type_name(old(self).lexer@.kind),
        ensures
            ({
                let (res, q) = spec_generic_type(old(self).lexer@.tokens, old(self).lexer@.pos);
                &&& final(self).options == old(self).options
                &&& final(self).lexer@ == old(self).lexer@.at(q)
                &&& match res {
                    Ok(e) => r == Some(e) && final(self).errors@ == old(self).errors@,
                    Err(e) => r is None && final(self).errors@ == old(self).errors@.push(e),
                }
            }),
            r is Some ==> final(self).lexer@.pos > old(self).lexer@.pos,
        decreases old(self).lexer@.tokens.len() - old(self).lexer@.pos, 1int,
    {
        proof { use_type_invariant(&self.lexer); }
        let ghost toks = old(self).lexer@.tokens;
        let ghost p = old(self).lexer@.pos;
        let idx = self.lexer.cur_index();
        let (start, end) = self.advance();
        let ghost id0 = Expr { parens: 0, node: Node::Identifier(idx), start, end };
        let mut id = Expr { parens: 0, node: Node::Identifier(idx), start, end };
        while self.check(TokenKind::period)
            invariant
                self.lexer@.wf(),
                self.lexer@.is_fresh(),
                self.lexer@.tokens == toks,
                p < self.lexer@.pos,
                toks == old(self).lexer@.tokens,
                p == old(self).lexer@.pos,
                start == toks[p].start,
                id0 == (Expr { parens: 0, node: Node::Identifier(p as usize), start: toks[p].start, end: toks[p].end }),
                self.options == old(self).options,
                self.errors@ == old(self).errors@,
                spec_qualified(toks, self.lexer@.pos, id, start) == spec_qualified(toks, step(toks, p), id0, start),
            decreases toks.len() - self.lexer@.pos,
        {
            proof { use_type_invariant(&self.lexer); }
            let ghost q = self.lexer@.pos;
            assert(q < toks.len() - 1);
            self.advance();
            proof { use_type_invariant(&self.lexer); }
            if !(self.check(TokenKind::identifier) || is_reserved_word(self.cur_kind())) {
                self.error_cur(ErrorKind::Expected(TokenKind::identifier));
                return None;
            }
            let idx2 = self.lexer.cur_index();
            let (s2, e2) = self.advance();
            id = Expr { parens: 0,
                node: Node::QualifiedTypeIdentifier {
                    qualification: Box::new(id),
                    id: Box::new(Expr { parens: 0, node: Node::Identifier(idx2), start: s2, end: e2 }),
                },
                start,
                end: e2,
            };
        }
        proof { use_type_invariant(&self.lexer); }
        if self.check(TokenKind::less) {
            let args = match self.parse_type_args_flow() {
                Some(a) => a,
                None => return None,
            };
            let end2 = self.lexer.prev_token_end();
            Some(
                Expr { parens: 0,
                    node: Node::GenericTypeAnnotation { id: Box::new(id), type_parameters: Some(Box::new(args)) },
                    start,
                    end: end2,
                },
            )
        } else {
            let end2 = self.lexer.prev_token_end();
            Some(Expr { parens: 0, node: Node::GenericTypeAnnotation { id: Box::new(id), type_parameters: None }, start, end: end2 })
        }
    }

    /// Parse type arguments `<T, U>`, with the current token at `<`.
    pub fn parse_type_args_flow(&mut self) -> (r: Option<Expr>)
        requires
            old(self).lexer@.is_fresh(),
            old(self).lexer@.kind == TokenKind::less,
        ensures
            ({
                let (res, q) = spec_type_args(old(self).lexer@.tokens, old(self).lexer@.pos);
                &&& final(self).options == old(self).options
                &&& final(self).lexer@ == old(self).lexer@.at(q)
                &&& match res {
                    Ok(e) => r == Some(e) && final(self).errors@ == old(self).errors@,
                    Err(e) => r is None && final(self).errors@ == old(self).errors@.push(e),
                }
            }),
            r is Some ==> final(self).lexer@.pos > old(self).lexer@.pos,
        decreases old(self).lexer@.tokens.len() - old(self).lexer@.pos, 0int,
    {
        proof { use_type_invariant(&self.lexer); }
        let (start, _) = self.advance();
        let params = match self.parse_type_list() {
            Some(l) => l,
            None => return None,
        };
        let (_, end) = self.lexer.cur_range();
        if !self.need(TokenKind::greater) {
            return None;
        }
        self.advance();
        Some(Expr { parens: 0, node: Node::TypeParameterInstantiation { params }, start, end })
    }

    /// Parse the types of a type-argument list up to its closing `>`.
    fn parse_type_list(&mut self) -> (r: Option<NodeList>)
        requires
            old(self).lexer@.is_fresh(),
        ensures
            ({
                let (res, q) = spec_type_list(old(self).lexer@.tokens, old(self).lexer@.pos);
                &&& final(self).options == old(self).options
                &&& final(self).lexer@ == old(self).lexer@.at(q)
                &&& match res {
                    Ok(l) => r == Some(l) && final(self).errors@ == old(self).errors@,
                    Err(e) => r is None && final(self).errors@ == old(self).errors@.push(e),
                }
            }),
            r is Some ==> final(self).lexer@.pos >= old(self).lexer@.pos,
        decreases old(self).lexer@.tokens.len() - old(self).lexer@.pos, 5int,
    {
        proof { use_type_invariant(&self.lexer); }
        assert(old(self).lexer@.at(old(self).lexer@.pos) == old(self).lexer@);
        if self.check(TokenKind::greater) {
            return Some(NodeList::Nil);
        }
        let t = match self.parse_type_annotation_flow(None) {
            Some(t) => t,
            None => return None,
        };
        proof { use_type_invariant(&self.lexer); }
        if self.check(TokenKind::comma) {
            self.advance();
            let rest = match self.parse_type_list() {
                Some(l) => l,
                None => return None,
            };
            Some(NodeList::Cons(Box::new(t), Box::new(rest)))
        } else {
            Some(NodeList::Cons(Box::new(t), Box::new(NodeList::Nil)))
        }
    }
}

} // verus!
