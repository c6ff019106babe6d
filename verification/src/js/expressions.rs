//! Expression parsing: the token tests of the assignment grammar, operator
//! precedence, and binary expressions.

use vstd::prelude::*;

use crate::js::{bytes_eq, JSParserImpl};
use crate::js::flow::declarations::err_at;
use crate::js::flow::declarations::RenderKind;
use crate::js::flow::function_types::PredicateKind;
use crate::js::flow::match_::BindingKind;
use crate::js::flow::object_types::{MappedTypeOptional, PropertyKind};
use crate::js::flow::params::VarianceKind;
use crate::js::flow::function_types::spec_next_kind;
use crate::js::flow::types::{spec_leaf, spec_type, spec_type_args, PrimitiveType, UnsupportedSyntax};
use crate::js::precedence::{
    lemma_fold_step, lemma_has_push, lemma_root_in_range, lemma_tighter_left_trans,
    lemma_tighter_right_trans, lemma_tree_prefix, scans_agree, spec_bin, spec_folds,
    spec_has_boolean, spec_has_nullish, spec_is_const_type, spec_is_logical, spec_mix_errors,
    spec_tree, tighter_left, tighter_right, BinaryScan, Fold,
};
use crate::js::{ErrorKind, ParseError};
use crate::lexer::{is_name_at, step, LexerState, SavePoint, Token};
use crate::token_kinds::{
    binop_precedence, is_reserved_word, spec_binop_prec, spec_is_reserved_word, TokenKind,
};

verus! {

/// Whether the identifier `of` ends an assignment expression (it does in
/// ordinary expressions; it does not after `yield`, where `yield of` yields
/// a variable named `of`).
#[derive(Clone, Copy, Debug, PartialEq, Eq, Structural)]
pub enum OfEndsAssignment {
    No,
    Yes,
}

/// Whether `kind` is an assignment operator: `=` or a compound assignment.
pub open spec fn spec_is_assign_op(kind: TokenKind) -> bool {
    match kind {
        TokenKind::equal | TokenKind::starequal | TokenKind::slashequal
        | TokenKind::percentequal | TokenKind::plusequal | TokenKind::minusequal
        | TokenKind::lesslessequal | TokenKind::greatergreaterequal
        | TokenKind::greatergreatergreaterequal | TokenKind::starstarequal
        | TokenKind::pipepipeequal | TokenKind::ampampequal
        | TokenKind::questionquestionequal | TokenKind::ampequal | TokenKind::caretequal
        | TokenKind::pipeequal => true,
        _ => false,
    }
}

/// Whether `kind` is a token that always ends an assignment expression.
pub open spec fn spec_ends_assignment(kind: TokenKind) -> bool {
    match kind {
        TokenKind::rw_in | TokenKind::r_paren | TokenKind::r_brace | TokenKind::r_square
        | TokenKind::comma | TokenKind::semi | TokenKind::colon | TokenKind::eof => true,
        _ => false,
    }
}

/// The binary-operator precedence of `kind`, 0 when it is not a binary
/// operator. `in`, `instanceof` and the `as` operator rank with the
/// relational operators.
pub open spec fn spec_precedence(kind: TokenKind) -> u32 {
    match kind {
        TokenKind::rw_in | TokenKind::rw_instanceof | TokenKind::as_operator => 8,
        _ => spec_binop_prec(kind),
    }
}

/// Whether the operator `kind` is left-associative (all but `**`).
pub open spec fn spec_is_left_assoc(kind: TokenKind) -> bool {
    kind != TokenKind::starstar
}


/// A syntax tree node of an expression or type. Names and literal values
/// are given by the index of the token that holds them.
#[derive(Debug, PartialEq, Eq)]
pub enum Node {
    Identifier(usize),
    PrivateName(usize),
    /// A regular expression literal.
    RegExpLiteral(usize),
    /// The empty parentheses `()`, which can only be the parameters of an
    /// arrow function.
    CoverEmptyArgs,
    NumericLiteral(usize),
    StringLiteral(usize),
    BigIntLiteral(usize),
    BooleanLiteral(bool),
    NullLiteral,
    ThisExpression,
    /// A prefix `delete`, `void`, `typeof`, `+`, `-`, `~` or `!`.
    UnaryExpression { operator: TokenKind, argument: Box<Expr> },
    /// `++` or `--`, before or after its argument.
    UpdateExpression { operator: TokenKind, argument: Box<Expr>, prefix: bool },
    BinaryExpression { operator: TokenKind, left: Box<Expr>, right: Box<Expr> },
    /// `&&`, `||` or `??`.
    LogicalExpression { operator: TokenKind, left: Box<Expr>, right: Box<Expr> },
    /// Flow `e as T`.
    AsExpression { expression: Box<Expr>, type_annotation: Box<Expr> },
    /// Flow `e as const`.
    AsConstExpression { expression: Box<Expr> },
    /// TypeScript `e as T`.
    TSAsExpression { expression: Box<Expr>, type_annotation: Box<Expr> },
    /// `left op right` for an assignment operator `op`.
    AssignmentExpression { operator: TokenKind, left: Box<Expr>, right: Box<Expr> },
    /// A trailing comma before `)` in a parenthesized list, which only
    /// parameters may have.
    CoverTrailingComma,
    /// A rest parameter `...argument`.
    RestElement { argument: Box<Expr> },
    /// A parameter with a default value `left = right`.
    AssignmentPattern { left: Box<Expr>, right: Box<Expr> },
    /// `test ? consequent : alternate`.
    ConditionalExpression { test: Box<Expr>, consequent: Box<Expr>, alternate: Box<Expr> },
    /// `await argument`.
    AwaitExpression { argument: Box<Expr> },
    /// `object.property` (or `object[property]` when computed).
    MemberExpression { object: Box<Expr>, property: Box<Expr>, computed: bool },
    /// A type name qualified by another: `qualification.id`.
    QualifiedTypeIdentifier { qualification: Box<Expr>, id: Box<Expr> },
    /// A type given by a (possibly qualified) name, with type arguments.
    GenericTypeAnnotation { id: Box<Expr>, type_parameters: Option<Box<Expr>> },
    /// Type arguments `<T, U>`.
    TypeParameterInstantiation { params: NodeList },
    /// The existential type `*`.
    ExistsTypeAnnotation,
    /// A built-in type given by name, and the index of the name's token.
    PrimitiveTypeAnnotation(PrimitiveType, usize),
    /// The type `null`.
    NullLiteralTypeAnnotation,
    /// The type `void`.
    VoidTypeAnnotation,
    StringLiteralTypeAnnotation(usize),
    NumberLiteralTypeAnnotation(usize),
    BigIntLiteralTypeAnnotation(usize),
    BooleanLiteralTypeAnnotation(bool),
    /// A type written after a `:`.
    TypeAnnotation { type_annotation: Box<Expr> },
    /// The variance of a type parameter.
    Variance(VarianceKind),
    /// A type parameter: the index of its name's token, whether `const` was
    /// written, its bound (a type annotation), variance and default, and
    /// whether the bound was introduced by `extends` rather than `:`.
    TypeParameter {
        name: usize,
        is_const: bool,
        bound: Option<Box<Expr>>,
        variance: Option<Box<Expr>>,
        initializer: Option<Box<Expr>>,
        uses_extends_bound: bool,
    },
    /// Type parameters `<T, U>` of a declaration.
    TypeParameterDeclaration { params: NodeList },
    /// An entry `Name<Args>` of an interface `extends` clause.
    InterfaceExtends { id: Box<Expr>, type_parameters: Option<Box<Expr>> },
    /// An entry `Name<Args>` of a `record` `implements` clause.
    RecordDeclarationImplements { id: Box<Expr>, type_parameters: Option<Box<Expr>> },
    /// A plain property `key?: value` of an object type, with its
    /// modifiers.
    ObjectTypeProperty {
        key: Box<Expr>,
        value: Box<Expr>,
        /// Whether the property is a method `key(params): R`.
        method: bool,
        /// Whether the property is a plain one, a getter or a setter.
        property_kind: PropertyKind,
        optional: bool,
        is_static: bool,
        proto: bool,
        variance: Option<Box<Expr>>,
    },
    /// An entry `Name<Args>` of a class `implements` clause.
    ClassImplements { id: Box<Expr>, type_parameters: Option<Box<Expr>> },
    /// `type id<params> = right;`
    TypeAlias { id: Box<Expr>, type_parameters: Option<Box<Expr>>, right: Box<Expr> },
    /// `declare type id<params> = right;`
    DeclareTypeAlias { id: Box<Expr>, type_parameters: Option<Box<Expr>>, right: Box<Expr> },
    /// `opaque type id<params> super lower extends upper = impltype;`, or
    /// with the older `: supertype` in place of the bounds.
    OpaqueType {
        id: Box<Expr>,
        type_parameters: Option<Box<Expr>>,
        impltype: Box<Expr>,
        lower_bound: Option<Box<Expr>>,
        upper_bound: Option<Box<Expr>>,
        supertype: Option<Box<Expr>>,
    },
    /// A render type `renders T`, `renders? T` or `renders* T`.
    TypeOperator { render: RenderKind, type_annotation: Box<Expr> },
    /// The match pattern `_`.
    MatchWildcardPattern,
    /// A literal used as a match pattern.
    MatchLiteralPattern { literal: Box<Expr> },
    /// A signed number or bigint used as a match pattern.
    MatchUnaryPattern { operator: TokenKind, argument: Box<Expr> },
    /// A name used as a match pattern.
    MatchIdentifierPattern { id: Box<Expr> },
    /// `base.property` or `base[literal]` used as a match pattern.
    MatchMemberPattern { base: Box<Expr>, property: Box<Expr> },
    /// `const x`, `var x` or `let x` in a match pattern.
    MatchBindingPattern { id: Box<Expr>, kind: BindingKind },
    /// `...` in a match object or array pattern, with an optional binding.
    MatchRestPattern { binding: Option<Box<Expr>> },
    /// `key: pattern`, or the shorthand `const key`.
    MatchObjectPatternProperty { key: Box<Expr>, pattern: Box<Expr>, shorthand: bool },
    /// `{ properties, ...rest }` as a match pattern.
    MatchObjectPattern { properties: NodeList, rest: Option<Box<Expr>> },
    /// The `{ properties, ...rest }` of an instance match pattern.
    MatchInstanceObjectPattern { properties: NodeList, rest: Option<Box<Expr>> },
    /// `Target { properties }` as a match pattern.
    MatchInstancePattern { target: Box<Expr>, object: Box<Expr> },
    /// `[ elements, ...rest ]` as a match pattern.
    MatchArrayPattern { elements: NodeList, rest: Option<Box<Expr>> },
    /// `a | b | c` as a match pattern.
    MatchOrPattern { patterns: NodeList },
    /// `pattern as target`.
    MatchAsPattern { pattern: Box<Expr>, target: Box<Expr> },
    /// A parameter of a function type: its name when it has one, its type,
    /// and whether it is optional (`name?: T`).
    FunctionTypeParam { param_name: Option<Box<Expr>>, type_annotation: Box<Expr>, optional: bool },
    /// A function type `<T>(this: C, params, ...rest) => R`.
    FunctionTypeAnnotation {
        params: NodeList,
        this_constraint: Option<Box<Expr>>,
        return_type: Box<Expr>,
        rest: Option<Box<Expr>>,
        type_parameters: Option<Box<Expr>>,
    },
    /// A hook type `<T>(params, ...rest) => R`.
    HookTypeAnnotation {
        params: NodeList,
        return_type: Box<Expr>,
        rest: Option<Box<Expr>>,
        type_parameters: Option<Box<Expr>>,
    },
    /// A type guard in a return type: `x is T`, `asserts x`,
    /// `asserts x is T` or `implies x is T`.
    TypePredicate {
        parameter_name: Box<Expr>,
        asserted_type: Option<Box<Expr>>,
        predicate_kind: Option<PredicateKind>,
    },
    /// An indexer `[name: key]: value` (or `[key]: value`) of an object type.
    ObjectTypeIndexer {
        key_name: Option<Box<Expr>>,
        key: Box<Expr>,
        value: Box<Expr>,
        is_static: bool,
        variance: Option<Box<Expr>>,
    },
    /// A mapped type member `[K in source_type]: prop_type` of an object
    /// type, with its optionality sigil.
    ObjectTypeMappedTypeProperty {
        key_tparam: Box<Expr>,
        prop_type: Box<Expr>,
        source_type: Box<Expr>,
        variance: Option<Box<Expr>>,
        optionality: Option<MappedTypeOptional>,
    },
    /// A call property `<T>(params): R` of an object type.
    ObjectTypeCallProperty { value: Box<Expr>, is_static: bool },
    /// An internal slot `[[id]]: value` (or `[[id]](params): R`, a method)
    /// of an object type.
    ObjectTypeInternalSlot { id: Box<Expr>, value: Box<Expr>, optional: bool, is_static: bool, method: bool },
    /// `interface id<params> extends ... { body }`.
    InterfaceDeclaration { id: Box<Expr>, type_parameters: Option<Box<Expr>>, extends: NodeList, body: Box<Expr> },
    /// `declare interface id<params> extends ... { body }`.
    DeclareInterface { id: Box<Expr>, type_parameters: Option<Box<Expr>>, extends: NodeList, body: Box<Expr> },
    /// `declare class id<params> extends E mixins M implements I { body }`.
    DeclareClass {
        id: Box<Expr>,
        type_parameters: Option<Box<Expr>>,
        extends: NodeList,
        implements: NodeList,
        mixins: NodeList,
        body: Box<Expr>,
    },
    /// A spread argument `...argument`.
    SpreadElement { argument: Box<Expr> },
    /// Expressions separated by commas.
    SequenceExpression { expressions: NodeList },
    /// `declare export` of a declaration (or of specifiers from a source),
    /// possibly as the default export.
    DeclareExportDeclaration {
        declaration: Option<Box<Expr>>,
        specifiers: NodeList,
        source: Option<Box<Expr>>,
        is_default: bool,
    },
    /// `declare var`, `declare let` or `declare const`: the name (over the
    /// name and its annotation), its type annotation and the keyword.
    DeclareVariable { id: Box<Expr>, annotation: Option<Box<Expr>>, kind: BindingKind },
    /// An entry `local` or `local as exported` of a list of export
    /// specifiers.
    ExportSpecifier { local: Box<Expr>, exported: Option<Box<Expr>> },
    /// `export * from source`, of types only when `type_only`.
    ExportAllDeclaration { source: Box<Expr>, type_only: bool },
    /// `export` of a declaration or of specifiers (from a source), of types
    /// only when `type_only`.
    ExportNamedDeclaration {
        declaration: Option<Box<Expr>>,
        specifiers: NodeList,
        source: Option<Box<Expr>>,
        type_only: bool,
    },
    /// `declare module.exports: T`.
    DeclareModuleExports { type_annotation: Box<Expr> },
    /// `declare module id { body }`.
    DeclareModule { id: Box<Expr>, body: Box<Expr> },
    /// A block `{ body }` of statements.
    BlockStatement { body: NodeList },
    /// `declare export * from source`.
    DeclareExportAllDeclaration { source: Box<Expr> },
    /// `record id<params> implements ... { body }`.
    RecordDeclaration { id: Box<Expr>, type_parameters: Option<Box<Expr>>, implements: NodeList, body: Box<Expr> },
    /// The body `{ ... }` of a record.
    RecordDeclarationBody { elements: NodeList },
    /// A property `key: T = initializer` of a record.
    RecordDeclarationProperty { key: Box<Expr>, type_annotation: Box<Expr>, initializer: Option<Box<Expr>> },
    /// The predicate `%checks` of a declared function.
    InferredPredicate,
    /// `declare function id<params>(params): R %checks;`: the name (over
    /// the range of the name and signature), its function type annotation,
    /// and the predicate.
    DeclareFunction { id: Box<Expr>, type_annotation: Box<Expr>, predicate: Option<Box<Expr>> },
    /// `declare hook id<params>(params): R;`: the name (over the range of
    /// the name and signature) and its hook type annotation.
    DeclareHook { id: Box<Expr>, type_annotation: Box<Expr> },
    /// A spread `...T` in an object type.
    ObjectTypeSpreadProperty { argument: Box<Expr> },
    /// An object type `{ ... }`, or an exact one `{| ... |}`, with its
    /// members by kind, and whether it ends with the inexact `...`.
    ObjectTypeAnnotation {
        properties: NodeList,
        indexers: NodeList,
        call_properties: NodeList,
        internal_slots: NodeList,
        inexact: bool,
        exact: bool,
    },
    /// `declare opaque type id<params> super lower extends upper;`
    DeclareOpaqueType {
        id: Box<Expr>,
        type_parameters: Option<Box<Expr>>,
        lower_bound: Option<Box<Expr>>,
        upper_bound: Option<Box<Expr>>,
        supertype: Option<Box<Expr>>,
    },
}

/// An optional node, boxed.
pub open spec fn spec_boxed(o: Option<Expr>) -> Option<Box<Expr>> {
    match o {
        Some(e) => Some(Box::new(e)),
        None => None,
    }
}

/// An optional node, boxed.
pub fn boxed(o: Option<Expr>) -> (r: Option<Box<Expr>>)
    ensures
        r == spec_boxed(o),
{
    match o {
        Some(e) => Some(Box::new(e)),
        None => None,
    }
}

/// A sequence of nodes, in order.
#[derive(Debug, PartialEq, Eq)]
pub enum NodeList {
    Nil,
    Cons(Box<Expr>, Box<NodeList>),
}

/// A node with its source range `[start, end)`.
#[derive(Debug, PartialEq, Eq)]
pub struct Expr {
    pub node: Node,
    pub start: usize,
    pub end: usize,
    /// How many pairs of parentheses were written around the expression,
    /// counted up to 2.
    pub parens: u8,
}


// ---------------------------------------------------------------------------
// The grammar of operands, types and binary expressions.
// ---------------------------------------------------------------------------

/// The end of the token before position `q` (0 at the start): where an
/// expression that ends just before `q` ends.
pub open spec fn spec_prev_end(toks: Seq<Token>, q: int) -> usize {
    if q > 0 {
        toks[q - 1].end
    } else {
        0
    }
}

/// Whether `kind` is a prefix unary operator that builds a unary expression.
pub open spec fn spec_is_unary_op(kind: TokenKind) -> bool {
    match kind {
        TokenKind::rw_delete | TokenKind::rw_void | TokenKind::rw_typeof | TokenKind::plus
        | TokenKind::minus | TokenKind::tilde | TokenKind::exclaim => true,
        _ => false,
    }
}

/// Whether `kind` is `++` or `--`.
pub open spec fn spec_is_update_op(kind: TokenKind) -> bool {
    kind == TokenKind::plusplus || kind == TokenKind::minusminus
}

/// The node of a primary expression made of the single token at `p`: a
/// name, a literal, `this`; `None` for any other token.
pub open spec fn spec_primary_node(toks: Seq<Token>, p: int) -> Option<Node> {
    match toks[p].kind {
        TokenKind::identifier => Some(Node::Identifier(p as usize)),
        TokenKind::numeric_literal => Some(Node::NumericLiteral(p as usize)),
        TokenKind::string_literal => Some(Node::StringLiteral(p as usize)),
        TokenKind::bigint_literal => Some(Node::BigIntLiteral(p as usize)),
        TokenKind::rw_true => Some(Node::BooleanLiteral(true)),
        TokenKind::rw_false => Some(Node::BooleanLiteral(false)),
        TokenKind::rw_null => Some(Node::NullLiteral),
        TokenKind::rw_this => Some(Node::ThisExpression),
        _ => None,
    }
}

/// The name `async`.
pub open spec fn spec_async_keyword() -> Seq<u8> {
    seq![97u8, 115u8, 121u8, 110u8, 99u8]
}

/// Whether the token at `p` is an unescaped `async` followed on the same
/// line by `function`: an async function expression.
pub open spec fn spec_starts_async_function(toks: Seq<Token>, p: int) -> bool {
    is_name_at(toks, p, spec_async_keyword()) && toks[p].end - toks[p].start == 5 && spec_next_kind(toks, p)
        == Some(TokenKind::rw_function)
}

/// One more pair of parentheses around an expression that had `n`, counted
/// up to 2.
pub open spec fn spec_inc_parens(n: u8) -> u8 {
    if n == 0 {
        1
    } else {
        2
    }
}

/// The diagnostic where a parenthesized expression does not close at `r`:
/// `)` expected before the end of a statement, a block, a bracket or the
/// input; otherwise the contents go on past a postfix expression, which is
/// reported as unsupported.
pub open spec fn spec_paren_close_error(toks: Seq<Token>, r: int) -> ParseError {
    let k = toks[r].kind;
    if k == TokenKind::semi || k == TokenKind::r_brace || k == TokenKind::r_square || k == TokenKind::eof {
        err_at(ErrorKind::Expected(TokenKind::r_paren), toks[r])
    } else {
        err_at(ErrorKind::Unsupported(UnsupportedSyntax::ParenthesizedExpression), toks[r])
    }
}

/// A primary expression at `p` and the position after it: a name (but not
/// `async function`), a literal (a regular expression too), `this`, the
/// empty parentheses `()`, or a postfix expression in parentheses `( e )`,
/// which gives `e` itself with one more pair of parentheses counted. Where none starts, the diagnostic and where it
/// was raised.
pub open spec fn spec_primary(toks: Seq<Token>, p: int) -> (Result<Expr, ParseError>, int)
    decreases toks.len() - p, 0int,
{
    let t = toks[p];
    let q = step(toks, p);
    if t.kind == TokenKind::l_paren {
        if !(0 <= p < q) {
            (Err(spec_primary_error(toks, p)), p)
        } else if toks[q].kind == TokenKind::r_paren {
            (Ok(Expr { parens: 0, node: Node::CoverEmptyArgs, start: t.start, end: toks[q].end }), step(toks, q))
        } else if spec_is_unary_op(toks[q].kind) || spec_is_update_op(toks[q].kind) {
            (Err(err_at(ErrorKind::Unsupported(UnsupportedSyntax::ParenthesizedExpression), toks[q])), q)
        } else {
            match spec_postfix(toks, q) {
                (Err(e), r) => (Err(e), r),
                (Ok(e), r) => if toks[r].kind == TokenKind::r_paren {
                    (Ok(Expr { node: e.node, start: e.start, end: e.end, parens: spec_inc_parens(e.parens) }), step(toks, r))
                } else {
                    (Err(spec_paren_close_error(toks, r)), r)
                },
            }
        }
    } else if t.kind == TokenKind::regexp_literal {
        (Ok(Expr { parens: 0, node: Node::RegExpLiteral(p as usize), start: t.start, end: t.end }), q)
    } else if spec_starts_async_function(toks, p) {
        (Err(spec_primary_error(toks, p)), p)
    } else {
        match spec_primary_node(toks, p) {
            Some(n) => (Ok(Expr { parens: 0, node: n, start: t.start, end: t.end }), q),
            None => (Err(spec_primary_error(toks, p)), p),
        }
    }
}

/// Law: parenthesizing does not change what an expression is. The
/// expression inside `( e )` is read as it is alone, with its node, source
/// range and everything but the count of parentheses unchanged, and the
/// count goes up by one, to at most 2.
pub proof fn law_parentheses_keep_expression(toks: Seq<Token>, p: int)
    requires
        0 <= p < toks.len() - 2,
        toks[p].kind == TokenKind::l_paren,
        toks[p + 1].kind != TokenKind::r_paren,
        !spec_is_unary_op(toks[p + 1].kind),
        !spec_is_update_op(toks[p + 1].kind),
        spec_postfix(toks, p + 1).0 is Ok,
        toks[spec_postfix(toks, p + 1).1].kind == TokenKind::r_paren,
    ensures
        ({
            let inner = spec_postfix(toks, p + 1).0->Ok_0;
            &&& spec_primary(toks, p).0 is Ok
            &&& spec_primary(toks, p).0->Ok_0.node == inner.node
            &&& spec_primary(toks, p).0->Ok_0.start == inner.start
            &&& spec_primary(toks, p).0->Ok_0.end == inner.end
            &&& spec_primary(toks, p).0->Ok_0.parens == (if inner.parens < 2 {
                inner.parens + 1
            } else {
                2
            })
            &&& spec_primary(toks, p).0->Ok_0.parens <= 2
        }),
{
}

/// The diagnostic where no primary expression starts at `p`: the forms
/// that are not parsed here (an array, object or template literal, a
/// function or class expression, `new`) are reported as unsupported; `<`
/// as possible JSX, and any other token as not starting an expression,
/// both at the point where the token starts.
#[verifier::opaque]
pub open spec fn spec_primary_error(toks: Seq<Token>, p: int) -> ParseError {
    let t = toks[p];
    let unsupported = |u: UnsupportedSyntax| err_at(ErrorKind::Unsupported(u), t);
    match t.kind {
        TokenKind::l_square => unsupported(UnsupportedSyntax::ArrayLiteral),
        TokenKind::l_brace => unsupported(UnsupportedSyntax::ObjectLiteral),
        TokenKind::no_substitution_template | TokenKind::template_head => unsupported(UnsupportedSyntax::TemplateLiteral),
        TokenKind::rw_function => unsupported(UnsupportedSyntax::FunctionExpression),
        TokenKind::at | TokenKind::rw_class => unsupported(UnsupportedSyntax::ClassExpression),
        TokenKind::rw_new => unsupported(UnsupportedSyntax::NewExpression),
        TokenKind::less => ParseError { kind: ErrorKind::PossibleJsx, start: t.start, end: t.start },
        _ => if spec_starts_async_function(toks, p) {
            unsupported(UnsupportedSyntax::FunctionExpression)
        } else {
            ParseError { kind: ErrorKind::InvalidExpression, start: t.start, end: t.start }
        },
    }
}

/// The member accesses `.name` and `.#name` from `q` on, applied to the
/// expression `e`. A computed member `[`, a call `(`, an optional chain
/// `?.` and a tagged template after the expression are reported as
/// unsupported.
pub open spec fn spec_member_chain_expr(toks: Seq<Token>, q: int, e: Expr) -> (Result<Expr, ParseError>, int)
    decreases toks.len() - q,
{
    if !(0 <= q < toks.len()) {
        (Ok(e), q)
    } else {
        let k = toks[q].kind;
        let unsupported = |u: UnsupportedSyntax| (Err(err_at(ErrorKind::Unsupported(u), toks[q])), q);
        if k == TokenKind::period {
            let q1 = step(toks, q);
            let pk = toks[q1].kind;
            if !(q < q1) {
                (Ok(e), q)
            } else if pk == TokenKind::identifier || spec_is_reserved_word(pk) || pk == TokenKind::private_identifier {
                let prop = Expr { parens: 0,
                    node: if pk == TokenKind::private_identifier {
                        Node::PrivateName(q1 as usize)
                    } else {
                        Node::Identifier(q1 as usize)
                    },
                    start: toks[q1].start,
                    end: toks[q1].end,
                };
                let e2 = Expr { parens: 0,
                    node: Node::MemberExpression { object: Box::new(e), property: Box::new(prop), computed: false },
                    start: e.start,
                    end: toks[q1].end,
                };
                spec_member_chain_expr(toks, step(toks, q1), e2)
            } else {
                (Err(err_at(ErrorKind::Expected(TokenKind::identifier), toks[q1])), q1)
            }
        } else if k == TokenKind::l_square {
            unsupported(UnsupportedSyntax::ComputedMember)
        } else if k == TokenKind::l_paren {
            unsupported(UnsupportedSyntax::CallExpression)
        } else if k == TokenKind::questiondot {
            unsupported(UnsupportedSyntax::OptionalChain)
        } else if k == TokenKind::no_substitution_template || k == TokenKind::template_head {
            unsupported(UnsupportedSyntax::TaggedTemplate)
        } else {
            (Ok(e), q)
        }
    }
}

/// A primary expression at `p` with its member accesses, optionally
/// followed on the same line by a postfix `++` or `--`.
pub open spec fn spec_postfix(toks: Seq<Token>, p: int) -> (Result<Expr, ParseError>, int)
    decreases toks.len() - p, 1int,
{
    match spec_primary(toks, p) {
        (Err(e), r) => (Err(e), r),
        (Ok(e0), q0) => match spec_member_chain_expr(toks, q0, e0) {
            (Err(x), r) => (Err(x), r),
            (Ok(e), q) => {
                if 0 <= q < toks.len() && spec_is_update_op(toks[q].kind) && !toks[q].new_line_before {
                    (Ok(Expr { parens: 0,
                        node: Node::UpdateExpression {
                            operator: toks[q].kind,
                            argument: Box::new(e),
                            prefix: false,
                        },
                        start: e.start,
                        end: toks[q].end,
                    }), step(toks, q))
                } else {
                    (Ok(e), q)
                }
            },
        },
    }
}

/// The name `constructor`.
pub open spec fn spec_constructor_name() -> Seq<u8> {
    seq![99u8, 111u8, 110u8, 115u8, 116u8, 114u8, 117u8, 99u8, 116u8, 111u8, 114u8]
}

/// The name `await`.
pub open spec fn spec_await_name() -> Seq<u8> {
    seq![97u8, 119u8, 97u8, 105u8, 116u8]
}

/// A unary expression at `p`: prefix operators, and `await` where `aw`
/// says it is an operator (inside an async function), applied to a postfix
/// expression. Gives the expression with the diagnostics it raised (a
/// unary operator directly before `**`), or the diagnostic that stopped it,
/// and the position after it.
#[verifier::opaque]
pub open spec fn spec_unary(toks: Seq<Token>, p: int, aw: bool) -> (Result<(Expr, Seq<ParseError>), ParseError>, int)
    decreases toks.len() - p, 2int,
{
    let t = toks[p];
    if aw && is_name_at(toks, p, spec_await_name()) {
        let q = step(toks, p);
        if !(0 <= p < q) {
            (Err(err_at(ErrorKind::UnexpectedToken, t)), p)
        } else {
            match spec_unary(toks, q, aw) {
                (Err(e), r) => (Err(e), r),
                (Ok((arg, errs)), r) => (Ok((
                    Expr { parens: 0, node: Node::AwaitExpression { argument: Box::new(arg) }, start: t.start, end: spec_prev_end(toks, r) },
                    errs,
                )), r),
            }
        }
    } else if spec_is_unary_op(t.kind) || spec_is_update_op(t.kind) {
        let q = step(toks, p);
        if !(0 <= p < q) {
            (Err(err_at(ErrorKind::UnexpectedToken, t)), p)
        } else {
            match spec_unary(toks, q, aw) {
                (Err(e), r) => (Err(e), r),
                (Ok((arg, errs)), r) => {
                    let node = if spec_is_update_op(t.kind) {
                        Node::UpdateExpression { operator: t.kind, argument: Box::new(arg), prefix: true }
                    } else {
                        Node::UnaryExpression { operator: t.kind, argument: Box::new(arg) }
                    };
                    let errs2 = if spec_is_unary_op(t.kind) && toks[r].kind == TokenKind::starstar {
                        errs.push(ParseError { kind: ErrorKind::UnaryBeforeExponent, start: t.start, end: toks[r].end })
                    } else {
                        errs
                    };
                    (Ok((Expr { parens: 0, node, start: t.start, end: spec_prev_end(toks, r) }, errs2)), r)
                },
            }
        }
    } else {
        match spec_postfix(toks, p) {
            (Err(e), r) => (Err(e), r),
            (Ok(e), r) => (Ok((e, Seq::empty())), r),
        }
    }
}

/// An operand of a binary operator at `p`, where `prev_prec` is the
/// precedence of the operator before it (0 for the first operand): a private
/// name, which must be the left-hand side of `in` and so raises a diagnostic
/// unless `in` follows and no operator binding at least as tightly as `in`
/// precedes it; or a unary expression.
pub open spec fn spec_operand(toks: Seq<Token>, p: int, prev_prec: u32, aw: bool) -> (Result<(Expr, Seq<ParseError>), ParseError>, int) {
    if toks[p].kind == TokenKind::private_identifier {
        let q = step(toks, p);
        let e = Expr { parens: 0, node: Node::PrivateName(p as usize), start: toks[p].start, end: toks[p].end };
        let errs = if toks[q].kind != TokenKind::rw_in || prev_prec >= 8 {
            seq![err_at(ErrorKind::PrivateNameNotInLhs, toks[p])]
        } else {
            Seq::empty()
        };
        (Ok((e, errs)), q)
    } else {
        spec_unary(toks, p, aw)
    }
}

/// The kind the parser sees at `q` after an operand: the `as` operator for
/// the identifier `as` when types are parsed, the token's own kind
/// otherwise.
pub open spec fn spec_operator_kind(toks: Seq<Token>, q: int, types: bool) -> TokenKind {
    if types && is_name_at(toks, q, seq![97u8, 115u8]) {
        TokenKind::as_operator
    } else {
        toks[q].kind
    }
}

/// The right operand of the operator `k`, at `q`: a type for `as`,
/// otherwise an operand.
pub open spec fn spec_right_operand(toks: Seq<Token>, q: int, k: TokenKind, aw: bool) -> (Result<(Expr, Seq<ParseError>), ParseError>, int) {
    if k == TokenKind::as_operator {
        match spec_type(toks, q) {
            (Err(e), r) => (Err(e), r),
            (Ok(e), r) => (Ok((e, Seq::<ParseError>::empty())), r),
        }
    } else {
        spec_operand(toks, q, spec_precedence(k), aw)
    }
}

/// The rest of a binary expression from `p`, after the operands and
/// operators `acc`: while the token at `p` is a binary operator (other than
/// `except`), the operator and its right operand (a type for `as`). `types`
/// says whether types are parsed and `aw` whether `await` is an operator.
pub open spec fn spec_scan_from(
    toks: Seq<Token>,
    p: int,
    types: bool,
    aw: bool,
    except: TokenKind,
    acc: BinaryScan,
) -> (Result<BinaryScan, ParseError>, int)
    decreases toks.len() - p,
{
    let k = spec_operator_kind(toks, p, types);
    if !(0 <= p < toks.len()) || k == except || spec_precedence(k) == 0 {
        (Ok(acc), p)
    } else {
        let q = step(toks, p);
        let (res, r) = spec_right_operand(toks, q, k, aw);
        match res {
            Err(e) => (Err(e), r),
            Ok((e, errs)) => {
                let acc2 = acc.extend(k, e, toks[q].start, spec_prev_end(toks, r), errs);
                if p < r <= toks.len() {
                    spec_scan_from(toks, r, types, aw, except, acc2)
                } else {
                    (Ok(acc2), r)
                }
            },
        }
    }
}

/// The operands and operators of the binary expression at `p`.
pub open spec fn spec_scan(toks: Seq<Token>, p: int, types: bool, aw: bool, except: TokenKind) -> (Result<BinaryScan, ParseError>, int) {
    match spec_operand(toks, p, 0, aw) {
        (Err(e), r) => (Err(e), r),
        (Ok((e, errs)), r) => spec_scan_from(
            toks,
            r,
            types,
            aw,
            except,
            BinaryScan {
                operands: seq![e],
                starts: seq![toks[p].start],
                ends: seq![spec_prev_end(toks, r)],
                ops: Seq::empty(),
                errors: errs,
            },
        ),
    }
}

impl JSParserImpl {
    /// Whether the current token is an assignment operator.
    pub fn check_assign(&self) -> (r: bool)
        ensures
            r == spec_is_assign_op(self.lexer@.kind),
    {
        match self.cur_kind() {
            TokenKind::equal | TokenKind::starequal | TokenKind::slashequal
            | TokenKind::percentequal | TokenKind::plusequal | TokenKind::minusequal
            | TokenKind::lesslessequal | TokenKind::greatergreaterequal
            | TokenKind::greatergreatergreaterequal | TokenKind::starstarequal
            | TokenKind::pipepipeequal | TokenKind::ampampequal
            | TokenKind::questionquestionequal | TokenKind::ampequal | TokenKind::caretequal
            | TokenKind::pipeequal => true,
            _ => false,
        }
    }

    /// Whether the current token can legally follow an assignment
    /// expression: a closing or separating token, `in`, end of input, an
    /// unescaped `of` (when `of` ends assignments here), or any token on a
    /// new line.
    pub fn check_end_assignment_expression(&self, of_ends_assignment: OfEndsAssignment) -> (r: bool)
        ensures
            r == (spec_ends_assignment(self.lexer@.kind)
                || (of_ends_assignment == OfEndsAssignment::Yes
                    && self.lexer@.is_unescaped_name(seq![111u8, 102u8]))
                || self.lexer@.cur().new_line_before),
    {
        match self.cur_kind() {
            TokenKind::rw_in | TokenKind::r_paren | TokenKind::r_brace | TokenKind::r_square
            | TokenKind::comma | TokenKind::semi | TokenKind::colon | TokenKind::eof => {
                return true;
            },
            _ => {},
        }
        if of_ends_assignment == OfEndsAssignment::Yes {
            let of: [u8; 2] = [111u8, 102u8];
            if self.check_unescaped_name(of.as_slice()) {
                assert(of@ =~= seq![111u8, 102u8]);
                return true;
            }
            assert(of@ =~= seq![111u8, 102u8]);
        }
        self.lexer.is_new_line_before_current_token()
    }

    /// The binary-operator precedence of `kind` (higher binds tighter), 0
    /// when `kind` is not a binary operator.
    pub fn get_precedence(kind: TokenKind) -> (r: u32)
        ensures
            r == spec_precedence(kind),
    {
        match binop_precedence(kind) {
            Some(p) => p,
            None => match kind {
                TokenKind::rw_in | TokenKind::rw_instanceof | TokenKind::as_operator => 8,
                _ => 0,
            },
        }
    }

    /// Whether the binary operator `kind` is left-associative.
    pub fn is_left_assoc(kind: TokenKind) -> (r: bool)
        ensures
            r == spec_is_left_assoc(kind),
    {
        kind != TokenKind::starstar
    }

    /// The precedence of `kind`, or 0 when it is the excluded kind `except`
    /// (`in` where the grammar forbids it as an operator).
    pub fn get_precedence_except(kind: TokenKind, except: TokenKind) -> (r: u32)
        ensures
            r == (if kind != except { spec_precedence(kind) } else { 0 }),
    {
        if kind != except {
            Self::get_precedence(kind)
        } else {
            0
        }
    }

    /// When types are parsed and the current token is the identifier `as`,
    /// turn it into the `as` operator.
    pub fn convert_ident_op_if_possible(&mut self)
        ensures
            final(self).lexer@ == (if old(self).options.spec_parse_types()
                && old(self).lexer@.is_name(seq![97u8, 115u8]) {
                LexerState { kind: TokenKind::as_operator, ..old(self).lexer@ }
            } else {
                old(self).lexer@
            }),
            final(self).options == old(self).options,
            final(self).errors@ == old(self).errors@,
    {
        proof { use_type_invariant(&self.lexer); }
        if self.cur_kind() == TokenKind::identifier && self.parse_types() {
            let as_name: [u8; 2] = [97u8, 115u8];
            assert(as_name@ =~= seq![97u8, 115u8]);
            if self.check_name(as_name.as_slice()) {
                self.lexer.convert_cur_token_to_as_operator();
            }
        }
    }

    /// Whether the current token is the identifier `name` written without
    /// escape sequences.
    pub fn check_unescaped_name(&self, name: &[u8]) -> (r: bool)
        ensures
            r == self.lexer@.is_unescaped_name(name@),
    {
        if self.cur_kind() != TokenKind::identifier {
            return false;
        }
        let tok = self.lexer.token();
        if !bytes_eq(tok.value.as_slice(), name) {
            return false;
        }
        tok.end >= tok.start && tok.end - tok.start == name.len()
    }

    /// Whether the current token is the identifier `name`, however it is
    /// written.
    pub fn check_name(&self, name: &[u8]) -> (r: bool)
        ensures
            r == self.lexer@.is_name(name@),
    {
        if self.cur_kind() != TokenKind::identifier {
            return false;
        }
        bytes_eq(self.lexer.token().value.as_slice(), name)
    }
}


impl JSParserImpl {
    /// Parse a primary expression: a name (but not `async function`), a
    /// literal (a regular expression too), `this`, the empty parentheses
    /// `()`, or a postfix expression in parentheses, which gives the
    /// expression inside. Where none starts, the forms that are not parsed
    /// here are reported as unsupported, `<` as possible JSX, and any other
    /// token as not starting an expression; the result is then `None`.
    pub fn parse_primary_expression(&mut self) -> (r: Option<Expr>)
        requires
            old(self).lexer@.is_fresh(),
        ensures
            ({
                let (res, q) = spec_primary(old(self).lexer@.tokens, old(self).lexer@.pos);
                &&& final(self).options == old(self).options
                &&& final(self).lexer@ == old(self).lexer@.at(q)
                &&& match res {
                    Ok(e) => r == Some(e) && final(self).errors@ == old(self).errors@,
                    Err(e) => r is None && final(self).errors@ == old(self).errors@.push(e),
                }
            }),
            r is Some ==> final(self).lexer@.pos > old(self).lexer@.pos,
        decreases old(self).lexer@.tokens.len() - old(self).lexer@.pos, 0int,
    {
        reveal(spec_primary_error);
        proof { use_type_invariant(&self.lexer); }
        assert(old(self).lexer@.at(old(self).lexer@.pos) == old(self).lexer@);
        let (start, end) = self.lexer.cur_range();
        let idx = self.lexer.cur_index();
        let kind = self.cur_kind();
        if kind == TokenKind::l_paren {
            self.advance();
            proof { use_type_invariant(&self.lexer); }
            if self.check(TokenKind::r_paren) {
                let (_, close_end) = self.advance();
                return Some(Expr { parens: 0, node: Node::CoverEmptyArgs, start, end: close_end });
            }
            let k2 = self.cur_kind();
            let is_op = match k2 {
                TokenKind::rw_delete | TokenKind::rw_void | TokenKind::rw_typeof | TokenKind::plus
                | TokenKind::minus | TokenKind::tilde | TokenKind::exclaim | TokenKind::plusplus
                | TokenKind::minusminus => true,
                _ => false,
            };
            if is_op {
                self.error_cur(ErrorKind::Unsupported(UnsupportedSyntax::ParenthesizedExpression));
                return None;
            }
            let inner = match self.parse_postfix_expression() {
                Some(e) => e,
                None => return None,
            };
            proof { use_type_invariant(&self.lexer); }
            if self.check(TokenKind::r_paren) {
                self.advance();
                let mut inner = inner;
                inner.parens = if inner.parens == 0 {
                    1
                } else {
                    2
                };
                return Some(inner);
            }
            let k3 = self.cur_kind();
            if k3 == TokenKind::semi || k3 == TokenKind::r_brace || k3 == TokenKind::r_square || k3
                == TokenKind::eof {
                self.error_cur(ErrorKind::Expected(TokenKind::r_paren));
            } else {
                self.error_cur(ErrorKind::Unsupported(UnsupportedSyntax::ParenthesizedExpression));
            }
            return None;
        }
        let async_name: [u8; 5] = [97u8, 115u8, 121u8, 110u8, 99u8];
        assert(async_name@ =~= spec_async_keyword());
        let async_function = self.check_unescaped_name(async_name.as_slice())
            && self.lexer.lookahead1() == Some(TokenKind::rw_function);
        let node = match kind {
            TokenKind::identifier if !async_function => Node::Identifier(idx),
            TokenKind::numeric_literal => Node::NumericLiteral(idx),
            TokenKind::string_literal => Node::StringLiteral(idx),
            TokenKind::bigint_literal => Node::BigIntLiteral(idx),
            TokenKind::regexp_literal => Node::RegExpLiteral(idx),
            TokenKind::rw_true => Node::BooleanLiteral(true),
            TokenKind::rw_false => Node::BooleanLiteral(false),
            TokenKind::rw_null => Node::NullLiteral,
            TokenKind::rw_this => Node::ThisExpression,
            _ => {
                let unsupported = match kind {
                    TokenKind::l_square => Some(UnsupportedSyntax::ArrayLiteral),
                    TokenKind::l_brace => Some(UnsupportedSyntax::ObjectLiteral),
                    TokenKind::no_substitution_template | TokenKind::template_head => Some(
                        UnsupportedSyntax::TemplateLiteral,
                    ),
                    TokenKind::rw_function => Some(UnsupportedSyntax::FunctionExpression),
                    TokenKind::at | TokenKind::rw_class => Some(UnsupportedSyntax::ClassExpression),
                    TokenKind::rw_new => Some(UnsupportedSyntax::NewExpression),
                    _ => if async_function {
                        Some(UnsupportedSyntax::FunctionExpression)
                    } else {
                        None
                    },
                };
                match unsupported {
                    Some(u) => self.error_cur(ErrorKind::Unsupported(u)),
                    None => if kind == TokenKind::less {
                        self.error_at(ErrorKind::PossibleJsx, start, start);
                    } else {
                        self.error_at(ErrorKind::InvalidExpression, start, start);
                    },
                }
                return None;
            },
        };
        self.advance();
        Some(Expr { parens: 0, node, start, end })
    }

    /// Parse a private name `#name`, with the current token at it. The name
    /// `#constructor` is reported without stopping.
    pub fn parse_private_name(&mut self) -> (r: Option<Expr>)
        requires
            old(self).lexer@.kind == TokenKind::private_identifier,
        ensures
            ({
                let toks = old(self).lexer@.tokens;
                let p = old(self).lexer@.pos;
                &&& r == Some(Expr { parens: 0, node: Node::PrivateName(p as usize), start: toks[p].start, end: toks[p].end })
                &&& final(self).lexer@ == old(self).lexer@.at(old(self).lexer@.next_pos())
                &&& final(self).options == old(self).options
                &&& final(self).errors@ == (if toks[p].value@ == spec_constructor_name() {
                    old(self).errors@.push(err_at(ErrorKind::PrivateNameConstructor, toks[p]))
                } else {
                    old(self).errors@
                })
            }),
    {
        let idx = self.lexer.cur_index();
        let constructor: [u8; 11] = [99u8, 111u8, 110u8, 115u8, 116u8, 114u8, 117u8, 99u8, 116u8, 111u8, 114u8];
        assert(constructor@ =~= spec_constructor_name());
        if bytes_eq(self.lexer.token().value.as_slice(), constructor.as_slice()) {
            self.error_cur(ErrorKind::PrivateNameConstructor);
        }
        let (start, end) = self.advance();
        Some(Expr { parens: 0, node: Node::PrivateName(idx), start, end })
    }

    /// Parse the member accesses `.name` and `.#name` after the expression
    /// `e`. A computed member, a call, an optional chain and a tagged
    /// template are reported as unsupported.
    fn parse_member_chain(&mut self, e: Expr) -> (r: Option<Expr>)
        requires
            old(self).lexer@.is_fresh(),
        ensures
            ({
                let (res, q) = spec_member_chain_expr(old(self).lexer@.tokens, old(self).lexer@.pos, e);
                &&& final(self).options == old(self).options
                &&& final(self).lexer@ == old(self).lexer@.at(q)
                &&& match res {
                    Ok(x) => r == Some(x) && final(self).errors@ == old(self).errors@,
                    Err(x) => r is None && final(self).errors@ == old(self).errors@.push(x),
                }
            }),
            r is Some ==> final(self).lexer@.pos >= old(self).lexer@.pos,
        decreases old(self).lexer@.tokens.len() - old(self).lexer@.pos,
    {
        proof { use_type_invariant(&self.lexer); }
        assert(old(self).lexer@.at(old(self).lexer@.pos) == old(self).lexer@);
        let k = self.cur_kind();
        if k == TokenKind::period {
            self.advance();
            proof { use_type_invariant(&self.lexer); }
            let pk = self.cur_kind();
            if pk == TokenKind::identifier || is_reserved_word(pk) || pk == TokenKind::private_identifier {
                let idx = self.lexer.cur_index();
                let (ps, pe) = self.advance();
                let node = if pk == TokenKind::private_identifier {
                    Node::PrivateName(idx)
                } else {
                    Node::Identifier(idx)
                };
                let start = e.start;
                let e2 = Expr { parens: 0,
                    node: Node::MemberExpression {
                        object: Box::new(e),
                        property: Box::new(Expr { parens: 0, node, start: ps, end: pe }),
                        computed: false,
                    },
                    start,
                    end: pe,
                };
                proof { use_type_invariant(&self.lexer); }
                return self.parse_member_chain(e2);
            }
            self.error_cur(ErrorKind::Expected(TokenKind::identifier));
            return None;
        }
        let unsupported = if k == TokenKind::l_square {
            Some(UnsupportedSyntax::ComputedMember)
        } else if k == TokenKind::l_paren {
            Some(UnsupportedSyntax::CallExpression)
        } else if k == TokenKind::questiondot {
            Some(UnsupportedSyntax::OptionalChain)
        } else if k == TokenKind::no_substitution_template || k == TokenKind::template_head {
            Some(UnsupportedSyntax::TaggedTemplate)
        } else {
            None
        };
        match unsupported {
            Some(u) => {
                self.error_cur(ErrorKind::Unsupported(u));
                None
            },
            None => Some(e),
        }
    }

    /// Parse a postfix expression: a primary expression with its member
    /// accesses, optionally followed on the same line by `++` or `--`.
    pub fn parse_postfix_expression(&mut self) -> (r: Option<Expr>)
        requires
            old(self).lexer@.is_fresh(),
        ensures
            ({
                let (res, q) = spec_postfix(old(self).lexer@.tokens, old(self).lexer@.pos);
                &&& final(self).options == old(self).options
                &&& final(self).lexer@ == old(self).lexer@.at(q)
                &&& match res {
                    Ok(e) => r == Some(e) && final(self).errors@ == old(self).errors@,
                    Err(e) => r is None && final(self).errors@ == old(self).errors@.push(e),
                }
            }),
            r is Some ==> final(self).lexer@.pos > old(self).lexer@.pos,
        decreases old(self).lexer@.tokens.len() - old(self).lexer@.pos, 1int,
    {
        proof { use_type_invariant(&self.lexer); }
        let e0 = match self.parse_primary_expression() {
            Some(e) => e,
            None => return None,
        };
        proof { use_type_invariant(&self.lexer); }
        let expr = match self.parse_member_chain(e0) {
            Some(e) => e,
            None => return None,
        };
        proof { use_type_invariant(&self.lexer); }
        if self.check2(TokenKind::plusplus, TokenKind::minusminus)
            && !self.lexer.is_new_line_before_current_token() {
            let op = self.cur_kind();
            let (_, op_end) = self.advance();
            let start = expr.start;
            Some(
                Expr { parens: 0,
                    node: Node::UpdateExpression { operator: op, argument: Box::new(expr), prefix: false },
                    start,
                    end: op_end,
                },
            )
        } else {
            Some(expr)
        }
    }


    /// Parse a unary expression: prefix `delete`, `void`, `typeof`, `+`,
    /// `-`, `~`, `!`, `++`, `--`, and `await` inside an async function,
    /// applied to a postfix expression. A unary
    /// operator directly before `**` is reported (the operand of `**` must be
    /// parenthesized) without stopping.
    pub fn parse_unary_expression(&mut self) -> (r: Option<Expr>)
        requires
            old(self).lexer@.is_fresh(),
        ensures
            ({
                let (res, q) = spec_unary(old(self).lexer@.tokens, old(self).lexer@.pos, old(self).options.param_await);
                &&& final(self).options == old(self).options
                &&& final(self).lexer@ == old(self).lexer@.at(q)
                &&& match res {
                    Ok((e, errs)) => r == Some(e) && final(self).errors@ == old(self).errors@ + errs,
                    Err(e) => r is None && final(self).errors@ == old(self).errors@.push(e),
                }
            }),
        decreases old(self).lexer@.tokens.len() - old(self).lexer@.pos, 2int,
    {
        reveal(spec_unary);
        proof { use_type_invariant(&self.lexer); }
        let await_name: [u8; 5] = [97u8, 119u8, 97u8, 105u8, 116u8];
        assert(await_name@ =~= spec_await_name());
        if self.options.param_await && self.check_name(await_name.as_slice()) {
            let (start, _) = self.advance();
            let expr = match self.parse_unary_expression() {
                Some(e) => e,
                None => return None,
            };
            let end = self.lexer.prev_token_end();
            return Some(Expr { parens: 0, node: Node::AwaitExpression { argument: Box::new(expr) }, start, end });
        }
        let k = self.cur_kind();
        let is_unary = match k {
            TokenKind::rw_delete | TokenKind::rw_void | TokenKind::rw_typeof | TokenKind::plus
            | TokenKind::minus | TokenKind::tilde | TokenKind::exclaim => true,
            _ => false,
        };
        let is_update = k == TokenKind::plusplus || k == TokenKind::minusminus;
        if is_unary || is_update {
            let (start, _) = self.advance();
            let expr = match self.parse_unary_expression() {
                Some(e) => e,
                None => return None,
            };
            proof { use_type_invariant(&self.lexer); }
            if is_unary && self.check(TokenKind::starstar) {
                let (_, cur_end) = self.lexer.cur_range();
                self.error_at(ErrorKind::UnaryBeforeExponent, start, cur_end);
            }
            let end = self.lexer.prev_token_end();
            let node = if is_update {
                Node::UpdateExpression { operator: k, argument: Box::new(expr), prefix: true }
            } else {
                Node::UnaryExpression { operator: k, argument: Box::new(expr) }
            };
            proof {
                assert(self.errors@ =~= old(self).errors@ + spec_unary(old(self).lexer@.tokens, old(self).lexer@.pos, old(self).options.param_await).0->Ok_0.1);
            }
            Some(Expr { parens: 0, node, start, end })
        } else {
            let r = self.parse_postfix_expression();
            proof {
                if r is Some {
                    assert(self.errors@ =~= old(self).errors@ + Seq::<ParseError>::empty());
                }
            }
            r
        }
    }

    /// Parse type arguments at the current `<` speculatively: diagnostics
    /// raised while parsing them are dropped, and the position before them
    /// is returned so that the caller can go back to it.
    pub fn speculative_type_args(&mut self) -> (r: (Option<Expr>, SavePoint))
        requires
            old(self).lexer@.is_fresh(),
            old(self).lexer@.kind == TokenKind::less,
        ensures
            ({
                let (res, q) = spec_type_args(old(self).lexer@.tokens, old(self).lexer@.pos);
                &&& r.1.pos() == old(self).lexer@.pos
                &&& final(self).lexer@ == old(self).lexer@.at(q)
                &&& final(self).options == old(self).options
                &&& final(self).errors@ == old(self).errors@
                &&& r.0 == (match res {
                    Ok(e) => Some(e),
                    Err(_) => None,
                })
            }),
    {
        let sp = self.lexer.save_point();
        let n = self.errors.len();
        let type_args = self.parse_type_args_flow();
        self.errors.truncate(n);
        assert(self.errors@ =~= old(self).errors@);
        (type_args, sp)
    }

    /// Parse an operand of a binary operator whose precedence is
    /// `prev_prec` (0 for the first operand): a private name, reported unless
    /// it is the left-hand side of `in`, or a unary expression.
    pub fn parse_binary_operand(&mut self, prev_prec: u32) -> (r: Option<Expr>)
        requires
            old(self).lexer@.is_fresh(),
        ensures
            ({
                let (res, q) = spec_operand(old(self).lexer@.tokens, old(self).lexer@.pos, prev_prec, old(self).options.param_await);
                &&& final(self).options == old(self).options
                &&& final(self).lexer@ == old(self).lexer@.at(q)
                &&& match res {
                    Ok((e, errs)) => r == Some(e) && final(self).errors@ == old(self).errors@ + errs,
                    Err(e) => r is None && final(self).errors@ == old(self).errors@.push(e),
                }
            }),
    {
        proof { use_type_invariant(&self.lexer); }
        if self.check(TokenKind::private_identifier) {
            let idx = self.lexer.cur_index();
            let (start, end) = self.advance();
            let in_prec = Self::get_precedence(TokenKind::rw_in);
            if !self.check(TokenKind::rw_in) || prev_prec >= in_prec {
                self.error_at(ErrorKind::PrivateNameNotInLhs, start, end);
                proof {
                    assert(self.errors@ =~= old(self).errors@ + seq![err_at(ErrorKind::PrivateNameNotInLhs, old(self).lexer@.cur())]);
                }
            } else {
                assert(self.errors@ =~= old(self).errors@ + Seq::<ParseError>::empty());
            }
            Some(Expr { parens: 0, node: Node::PrivateName(idx), start, end })
        } else {
            self.parse_unary_expression()
        }
    }

    /// The node of the `as` operator over `left` and the type `right`,
    /// spanning `[start, end)`: a TypeScript `as` expression; under Flow an
    /// `as const` expression when the type is the name `const`, a plain `as`
    /// expression otherwise.
    pub fn make_as_node(&self, left: Expr, right: Expr, start: usize, end: usize) -> (r: Expr)
        ensures
            r == spec_bin(
                self.lexer@.tokens,
                self.options.parse_ts,
                TokenKind::as_operator,
                left,
                right,
                start,
                end,
            ),
    {
        if self.options.parse_ts {
            return Expr { parens: 0,
                node: Node::TSAsExpression { expression: Box::new(left), type_annotation: Box::new(right) },
                start,
                end,
            };
        }
        let is_const = match &right.node {
            Node::GenericTypeAnnotation { id, type_parameters: None } => match id.node {
                Node::Identifier(i) => match self.lexer.kind_at(i) {
                    Some(TokenKind::rw_const) => true,
                    Some(TokenKind::identifier) => {
                        let name: [u8; 5] = [99u8, 111u8, 110u8, 115u8, 116u8];
                        assert(name@ =~= seq![99u8, 111u8, 110u8, 115u8, 116u8]);
                        bytes_eq(self.lexer.token_at(i).value.as_slice(), name.as_slice())
                    },
                    _ => false,
                },
                _ => false,
            },
            _ => false,
        };
        if is_const {
            Expr { parens: 0, node: Node::AsConstExpression { expression: Box::new(left) }, start, end }
        } else {
            Expr { parens: 0,
                node: Node::AsExpression { expression: Box::new(left), type_annotation: Box::new(right) },
                start,
                end,
            }
        }
    }

    /// Build the node of operator `op` over `left` and `right`, spanning
    /// `[start, end)`. For a logical operator, record whether `??` or
    /// `&&`/`||` has now been seen, and report mixing the two when a node of
    /// the other family was built before.
    pub fn new_bin_node(
        &mut self,
        op: TokenKind,
        left: Expr,
        right: Expr,
        start: usize,
        end: usize,
        has_nullish: &mut bool,
        has_boolean: &mut bool,
    ) -> (r: Expr)
        ensures
            r == spec_bin(old(self).lexer@.tokens, old(self).options.parse_ts, op, left, right, start, end),
            *final(has_nullish) == (*old(has_nullish) || op == TokenKind::questionquestion),
            *final(has_boolean) == (*old(has_boolean) || op == TokenKind::ampamp || op
                == TokenKind::pipepipe),
            final(self).errors@ == (if spec_is_logical(op) && ((*old(has_nullish) && op
                != TokenKind::questionquestion) || (*old(has_boolean) && op
                == TokenKind::questionquestion)) {
                old(self).errors@.push(
                    ParseError { kind: ErrorKind::MixingNullishAndLogical, start: left.start, end: right.end },
                )
            } else {
                old(self).errors@
            }),
            final(self).lexer@ == old(self).lexer@,
            final(self).options == old(self).options,
    {
        if op == TokenKind::ampamp || op == TokenKind::pipepipe || op == TokenKind::questionquestion {
            if (*has_nullish && op != TokenKind::questionquestion) || (*has_boolean && op
                == TokenKind::questionquestion) {
                self.error_at(ErrorKind::MixingNullishAndLogical, left.start, right.end);
            }
            if op == TokenKind::questionquestion {
                *has_nullish = true;
            } else {
                *has_boolean = true;
            }
            Expr { parens: 0,
                node: Node::LogicalExpression { operator: op, left: Box::new(left), right: Box::new(right) },
                start,
                end,
            }
        } else if op == TokenKind::as_operator {
            self.make_as_node(left, right, start, end)
        } else {
            Expr { parens: 0,
                node: Node::BinaryExpression { operator: op, left: Box::new(left), right: Box::new(right) },
                start,
                end,
            }
        }
    }
}


// ---------------------------------------------------------------------------
// Binary expressions.
// ---------------------------------------------------------------------------

/// Whether a diagnostic is one for mixing `??` with `&&`/`||`.
pub open spec fn spec_is_mixing(e: ParseError) -> bool {
    e.kind == ErrorKind::MixingNullishAndLogical
}

/// An operand waiting for its right-hand side: the operand (a tree already
/// built), the operator after it, and where the operand starts.
struct StackEntry {
    expr: Expr,
    op_kind: TokenKind,
    expr_start: usize,
}

/// The first operand of stack entry `j`'s segment: the one after the
/// operator of the entry below it.
spec fn seg_lo(pos: Seq<int>, j: int) -> int {
    if j <= 0 {
        0
    } else {
        pos[j - 1] + 1
    }
}

/// The operator nodes built for the segments of the first `m` stack
/// entries, in order.
spec fn spec_stack_folds(toks: Seq<Token>, ts: bool, s: BinaryScan, pos: Seq<int>, m: int) -> Seq<Fold>
    decreases m,
{
    if m <= 0 {
        Seq::empty()
    } else {
        spec_stack_folds(toks, ts, s, pos, m - 1) + spec_folds(toks, ts, s, seg_lo(pos, m - 1), pos[m - 1])
    }
}

/// The stack of pending operators: entry `j` holds operator `pos[j]` and
/// the tree of the operands from `seg_lo(pos, j)` to `pos[j]`; everything in
/// that segment binds tighter than the entry's operator, and so does every
/// later operator read so far.
spec fn stack_ok(toks: Seq<Token>, ts: bool, s: BinaryScan, stack: Seq<StackEntry>, pos: Seq<int>) -> bool {
    let m = stack.len() as int;
    let i = s.ops.len() as int;
    &&& s.wf()
    &&& pos.len() == m
    &&& forall|j: int| 0 <= j < m ==> 0 <= seg_lo(pos, j) <= #[trigger] pos[j] < i
    &&& forall|j1: int, j2: int| 0 <= j1 < j2 < m ==> #[trigger] pos[j1] < #[trigger] pos[j2]
    &&& forall|j: int| 0 <= j < m ==> (#[trigger] stack[j]).op_kind == s.ops[pos[j]]
    &&& forall|j: int|
        0 <= j < m ==> (#[trigger] stack[j]).expr == spec_tree(toks, ts, s, seg_lo(pos, j), pos[j])
    &&& forall|j: int| 0 <= j < m ==> (#[trigger] stack[j]).expr_start == s.starts[seg_lo(pos, j)]
    &&& forall|j: int, t: int|
        0 <= j < m && seg_lo(pos, j) <= t < pos[j] ==> tighter_left(
            #[trigger] s.ops[t],
            #[trigger] s.ops[pos[j]],
        )
    &&& forall|j: int, t: int|
        0 <= j < m && pos[j] < t < i ==> tighter_right(#[trigger] s.ops[t], #[trigger] s.ops[pos[j]])
}

/// Filtering after appending diagnostics none of which is a mixing one.
proof fn lemma_filter_append_non_mixing(a: Seq<ParseError>, b: Seq<ParseError>)
    requires
        forall|k: int| 0 <= k < b.len() ==> !spec_is_mixing(#[trigger] b[k]),
    ensures
        (a + b).filter(|e: ParseError| spec_is_mixing(e)) == a.filter(|e: ParseError| spec_is_mixing(e)),
        (a + b).filter(|e: ParseError| !spec_is_mixing(e)) == a.filter(|e: ParseError| !spec_is_mixing(e))
            + b,
    decreases b.len(),
{
    let mix = |e: ParseError| spec_is_mixing(e);
    let other = |e: ParseError| !spec_is_mixing(e);
    if b.len() == 0 {
        assert(a + b =~= a);
        assert(a.filter(other) + b =~= a.filter(other));
    } else {
        let b0 = b.drop_last();
        let x = b.last();
        lemma_filter_append_non_mixing(a, b0);
        assert(a + b =~= (a + b0).push(x));
        (a + b0).lemma_filter_push(x, mix);
        (a + b0).lemma_filter_push(x, other);
        assert(a.filter(other) + b =~= (a.filter(other) + b0).push(x));
    }
}

/// The diagnostics an operand raises without stopping are never mixing
/// ones.
proof fn lemma_unary_errors(toks: Seq<Token>, p: int, aw: bool)
    ensures
        spec_unary(toks, p, aw).0 matches Ok((_, errs)) ==> forall|k: int|
            0 <= k < errs.len() ==> !spec_is_mixing(#[trigger] errs[k]),
    decreases toks.len() - p,
{
    reveal(spec_unary);
    let t = toks[p];
    if (aw && is_name_at(toks, p, spec_await_name())) || spec_is_unary_op(t.kind) || spec_is_update_op(
        t.kind,
    ) {
        let q = step(toks, p);
        if 0 <= p < q {
            lemma_unary_errors(toks, q, aw);
        }
    }
}

/// The diagnostics an operand raises without stopping are never mixing
/// ones.
proof fn lemma_operand_errors(toks: Seq<Token>, q: int, k: TokenKind, aw: bool)
    ensures
        spec_right_operand(toks, q, k, aw).0 matches Ok((_, errs)) ==> forall|i: int|
            0 <= i < errs.len() ==> !spec_is_mixing(#[trigger] errs[i]),
{
    lemma_unary_errors(toks, q, aw);
}

/// The first operand's diagnostics are never mixing ones.
proof fn lemma_first_operand_errors(toks: Seq<Token>, p: int, aw: bool)
    ensures
        spec_operand(toks, p, 0, aw).0 matches Ok((_, errs)) ==> forall|i: int|
            0 <= i < errs.len() ==> !spec_is_mixing(#[trigger] errs[i]),
{
    lemma_unary_errors(toks, p, aw);
}

/// The stack's trees and nodes stay the same when the scan is extended.
#[verifier::rlimit(40)]
#[verifier::spinoff_prover]
proof fn lemma_stack_prefix(
    toks: Seq<Token>,
    ts: bool,
    s: BinaryScan,
    s2: BinaryScan,
    pos: Seq<int>,
    m: int,
)
    requires
        0 <= m <= pos.len(),
        forall|j: int| 0 <= j < m ==> 0 <= seg_lo(pos, j) <= #[trigger] pos[j] < s.operands.len(),
        s.wf(),
        s.operands.len() >= 1,
        scans_agree(s, s2, s.operands.len() - 1),
    ensures
        spec_stack_folds(toks, ts, s, pos, m) == spec_stack_folds(toks, ts, s2, pos, m),
        forall|j: int|
            0 <= j < m ==> spec_tree(toks, ts, s, seg_lo(pos, j), #[trigger] pos[j]) == spec_tree(
                toks,
                ts,
                s2,
                seg_lo(pos, j),
                pos[j],
            ),
    decreases m,
{
    if m > 0 {
        lemma_stack_prefix(toks, ts, s, s2, pos, m - 1);
        let j = m - 1;
        assert(seg_lo(pos, j) <= pos[j]);
        assert(scans_agree(s, s2, pos[j]));
        lemma_tree_prefix(toks, ts, s, s2, seg_lo(pos, j), pos[j]);
    }
}

/// The state of the precedence parser: the stack of pending operators, the
/// tree built for the operands after the topmost one, where that tree's
/// operands start and end, and which logical operator families have been
/// built into nodes.
struct FoldState {
    stack: Vec<StackEntry>,
    top_expr: Expr,
    top_expr_start: usize,
    top_expr_end: usize,
    has_nullish: bool,
    has_boolean: bool,
}

/// What the precedence parser has read and done: the operands and
/// operators read, the operator positions on the stack, the nodes built, and
/// the diagnostics reported.
ghost struct FoldGhost {
    scan: BinaryScan,
    pos: Seq<int>,
    folds: Seq<Fold>,
    app: Seq<ParseError>,
}

/// The precedence parser's state matches what it has read and done.
#[verifier::opaque]
spec fn fold_ok(toks: Seq<Token>, ts: bool, st: FoldState, g: FoldGhost) -> bool {
    let m = st.stack@.len() as int;
    let i = g.scan.ops.len() as int;
    &&& stack_ok(toks, ts, g.scan, st.stack@, g.pos)
    &&& seg_lo(g.pos, m) <= i
    &&& st.top_expr == spec_tree(toks, ts, g.scan, seg_lo(g.pos, m), i)
    &&& st.top_expr_start == g.scan.starts[seg_lo(g.pos, m)]
    &&& st.top_expr_end == g.scan.ends[i]
    &&& g.folds == spec_stack_folds(toks, ts, g.scan, g.pos, m) + spec_folds(toks, ts, g.scan, seg_lo(g.pos, m), i)
    &&& st.has_nullish == spec_has_nullish(g.folds)
    &&& st.has_boolean == spec_has_boolean(g.folds)
    &&& g.app.filter(|e: ParseError| spec_is_mixing(e)) == spec_mix_errors(g.folds)
    &&& g.app.filter(|e: ParseError| !spec_is_mixing(e)) == g.scan.errors
}

/// The operator of the topmost stack entry.
spec fn top_op(g: FoldGhost) -> TokenKind {
    g.scan.ops[g.pos.last()]
}

/// Everything in the segment above the stack binds tighter than `op`.
spec fn top_segment_tighter(g: FoldGhost, op: TokenKind) -> bool {
    forall|t: int|
        seg_lo(g.pos, g.pos.len() as int) <= t < g.scan.ops.len() ==> tighter_left(
            #[trigger] g.scan.ops[t],
            op,
        )
}

/// The state after reading the first operand.
proof fn lemma_fold_init(toks: Seq<Token>, ts: bool, st: FoldState, g: FoldGhost)
    requires
        st.stack@.len() == 0,
        g.scan.wf(),
        g.scan.ops.len() == 0,
        g.pos.len() == 0,
        g.folds.len() == 0,
        g.app == g.scan.errors,
        forall|k: int| 0 <= k < g.app.len() ==> !spec_is_mixing(#[trigger] g.app[k]),
        st.top_expr == g.scan.operands[0],
        st.top_expr_start == g.scan.starts[0],
        st.top_expr_end == g.scan.ends[0],
        !st.has_nullish,
        !st.has_boolean,
    ensures
        fold_ok(toks, ts, st, g),
{
    reveal(fold_ok);
    let mix: spec_fn(ParseError) -> bool = |e: ParseError| spec_is_mixing(e);
    let other: spec_fn(ParseError) -> bool = |e: ParseError| !spec_is_mixing(e);
    lemma_filter_append_non_mixing(Seq::empty(), g.app);
    assert(Seq::<ParseError>::empty() + g.app =~= g.app);
    reveal(Seq::filter);
    assert(Seq::<ParseError>::empty().filter(other) =~= Seq::<ParseError>::empty());
    assert(Seq::<ParseError>::empty().filter(mix) =~= Seq::<ParseError>::empty());
    assert(Seq::<ParseError>::empty() + g.app =~= g.app);
    assert(g.folds =~= spec_stack_folds(toks, ts, g.scan, g.pos, 0) + spec_folds(toks, ts, g.scan, 0, 0));
}

impl JSParserImpl {
    #[verifier::rlimit(60)]
    /// Pop the topmost pending operator and build its node over the tree
    /// below it and the tree above it.
    fn fold_stack_top(
        &mut self,
        st: &mut FoldState,
        Ghost(g): Ghost<FoldGhost>,
        Ghost(e0): Ghost<Seq<ParseError>>,
    ) -> (g2: Ghost<FoldGhost>)
        requires
            fold_ok(old(self).lexer@.tokens, old(self).options.parse_ts, *old(st), g),
            old(st).stack@.len() > 0,
            old(self).errors@ == e0 + g.app,
        ensures
            fold_ok(final(self).lexer@.tokens, final(self).options.parse_ts, *final(st), g2@),
            final(self).errors@ == e0 + g2@.app,
            final(self).lexer@ == old(self).lexer@,
            final(self).options == old(self).options,
            final(st).stack@ == old(st).stack@.drop_last(),
            g2@.scan == g.scan,
            g2@.pos == g.pos.drop_last(),
            ({
                let m = old(st).stack@.len() as int;
                let k = g.pos[m - 1];
                &&& k == g.pos.last()
                &&& seg_lo(g.pos, m - 1) <= k < g.scan.ops.len()
                &&& forall|t: int|
                    seg_lo(g.pos, m - 1) <= t < k ==> tighter_left(#[trigger] g.scan.ops[t], g.scan.ops[k])
                &&& forall|t: int|
                    0 <= t < g.scan.ops.len() && k < t ==> tighter_right(#[trigger] g.scan.ops[t], g.scan.ops[k])
            }),
    {
        let ghost toks = self.lexer@.tokens;
        let ghost ts = self.options.parse_ts;
        let ghost scan = g.scan;
        let ghost pos = g.pos;
        let ghost i = scan.ops.len() as int;
        let ghost m = st.stack@.len() as int;
        proof { reveal(fold_ok); }
        let ghost a = seg_lo(pos, m - 1);
        let ghost k = pos[m - 1];
        let entry = st.stack.pop().unwrap();
        let ghost f: Fold = (scan.ops[k], entry.expr.start, st.top_expr.end);
        let ghost err = ParseError { kind: ErrorKind::MixingNullishAndLogical, start: f.1, end: f.2 };
        let ghost mix: spec_fn(ParseError) -> bool = |e: ParseError| spec_is_mixing(e);
        let ghost other: spec_fn(ParseError) -> bool = |e: ParseError| !spec_is_mixing(e);
        proof {
            assert(seg_lo(pos, m - 1) <= pos[m - 1] < i);
            assert forall|t: int| a <= t < k implies tighter_left(#[trigger] scan.ops[t], scan.ops[k]) by {
                assert(seg_lo(pos, m - 1) <= t < pos[m - 1]);
            }
            assert forall|t: int| k < t < i implies tighter_right(#[trigger] scan.ops[t], scan.ops[k]) by {
                assert(pos[m - 1] < t < i);
            }
            lemma_fold_step(toks, ts, scan, a, k, i);
            lemma_has_push(g.folds, f);
            g.app.lemma_filter_push(err, mix);
            g.app.lemma_filter_push(err, other);
        }
        let ghost mixes = spec_is_logical(entry.op_kind) && ((st.has_nullish && entry.op_kind
            != TokenKind::questionquestion) || (st.has_boolean && entry.op_kind
            == TokenKind::questionquestion));
        let new_start = entry.expr_start;
        let new_end = st.top_expr_end;
        let mut placeholder = Expr { parens: 0, node: Node::NullLiteral, start: 0, end: 0 };
        std::mem::swap(&mut placeholder, &mut st.top_expr);
        let folded = self.new_bin_node(
            entry.op_kind,
            entry.expr,
            placeholder,
            new_start,
            new_end,
            &mut st.has_nullish,
            &mut st.has_boolean,
        );
        st.top_expr = folded;
        st.top_expr_start = st.top_expr.start;
        let ghost app2 = if mixes {
            g.app.push(err)
        } else {
            g.app
        };
        let ghost pos2 = pos.drop_last();
        let ghost g2 = FoldGhost { scan, pos: pos2, folds: g.folds.push(f), app: app2 };
        proof {
            assert(seg_lo(pos, m) == k + 1);
            assert(pos =~= pos2.push(k));
            lemma_stack_folds_pos(toks, ts, scan, pos2, pos, m - 1);
            assert(g.folds.push(f) =~= spec_stack_folds(toks, ts, scan, pos2, m - 1) + spec_folds(toks, ts, scan, a, i));
            assert(seg_lo(pos2, m - 1) == a);
            assert(self.errors@ =~= e0 + app2);
            assert forall|j: int, t: int|
                0 <= j < m - 1 && seg_lo(pos2, j) <= t < pos2[j] implies tighter_left(
                    #[trigger] scan.ops[t],
                    #[trigger] scan.ops[pos2[j]],
                ) by {
                assert(seg_lo(pos2, j) == seg_lo(pos, j));
                assert(pos2[j] == pos[j]);
            }
            assert forall|j: int, t: int|
                0 <= j < m - 1 && pos2[j] < t < i implies tighter_right(
                    #[trigger] scan.ops[t],
                    #[trigger] scan.ops[pos2[j]],
                ) by {
                assert(pos2[j] == pos[j]);
            }
            assert forall|j: int| 0 <= j < m - 1 implies seg_lo(pos2, j) == seg_lo(pos, j) by {}
            assert(stack_ok(toks, ts, scan, st.stack@, pos2));
            reveal(fold_ok);
        }
        Ghost(g2)
    }

    #[verifier::rlimit(60)]
    /// Push the operator `op` (operator number `i`) over the tree built so
    /// far, and make `rhs` (the operand after `op`, spanning `rhs_start` to
    /// `rhs_end`, which raised `errs`) the tree above it.
    fn push_operand(
        &self,
        st: &mut FoldState,
        op: TokenKind,
        rhs: Expr,
        rhs_start: usize,
        rhs_end: usize,
        Ghost(g): Ghost<FoldGhost>,
        Ghost(errs): Ghost<Seq<ParseError>>,
    ) -> (g2: Ghost<FoldGhost>)
        requires
            fold_ok(self.lexer@.tokens, self.options.parse_ts, *old(st), g),
            spec_precedence(op) > 0,
            top_segment_tighter(g, op),
            old(st).stack@.len() > 0 ==> !tighter_left(top_op(g), op),
            forall|k: int| 0 <= k < errs.len() ==> !spec_is_mixing(#[trigger] errs[k]),
        ensures
            g2@ == (FoldGhost {
                scan: g.scan.extend(op, rhs, rhs_start, rhs_end, errs),
                pos: g.pos.push(g.scan.ops.len() as int),
                folds: g.folds,
                app: g.app + errs,
            }),
            fold_ok(self.lexer@.tokens, self.options.parse_ts, *final(st), g2@),
            final(st).stack@.len() == old(st).stack@.len() + 1,
    {
        let ghost toks = self.lexer@.tokens;
        let ghost ts = self.options.parse_ts;
        let ghost scan = g.scan;
        let ghost pos = g.pos;
        let ghost i = scan.ops.len() as int;
        let ghost m = st.stack@.len() as int;
        proof { reveal(fold_ok); }
        let ghost scan2 = scan.extend(op, rhs, rhs_start, rhs_end, errs);
        let ghost pos2 = pos.push(i);
        let ghost g2 = FoldGhost { scan: scan2, pos: pos2, folds: g.folds, app: g.app + errs };
        let ghost rhs0 = rhs;
        let mut rhs = rhs;
        std::mem::swap(&mut st.top_expr, &mut rhs);
        let entry = StackEntry { expr: rhs, op_kind: op, expr_start: st.top_expr_start };
        st.stack.push(entry);
        st.top_expr_start = rhs_start;
        st.top_expr_end = rhs_end;
        proof {
            lemma_filter_append_non_mixing(g.app, errs);
            assert(!tighter_left(top_op(g), op) ==> (m > 0 ==> !tighter_left(scan.ops[pos[m - 1]], op)));
            lemma_push_stack_ok(toks, ts, scan, scan2, old(st).stack@, st.stack@, pos, pos2, op, rhs0, rhs_start, rhs_end, errs);
            assert(spec_folds(toks, ts, scan2, i + 1, i + 1) =~= Seq::<Fold>::empty());
            assert(seg_lo(pos2, m + 1) == i + 1);
            assert(g.folds =~= spec_stack_folds(toks, ts, scan2, pos2, m + 1) + spec_folds(toks, ts, scan2, seg_lo(pos2, m + 1), i + 1));
            reveal(fold_ok);
        }
        Ghost(g2)
    }

    /// Parse a binary expression by operator precedence: operands
    /// separated by binary operators (`in` only when `param_in`), with the
    /// `as` operator when types are parsed. Reports mixing `??` with
    /// `&&`/`||` without parentheses, and a private name that is not the
    /// left-hand side of `in`, without stopping.
    #[verifier::rlimit(100)]
    #[verifier::spinoff_prover]
    pub fn parse_binary_expression(&mut self, param_in: bool) -> (r: Option<Expr>)
        requires
            old(self).lexer@.is_fresh(),
        ensures
            ({
                let toks = old(self).lexer@.tokens;
                let types = old(self).options.spec_parse_types();
                let ts = old(self).options.parse_ts;
                let except = if param_in {
                    TokenKind::none
                } else {
                    TokenKind::rw_in
                };
                let (res, q) = spec_scan(toks, old(self).lexer@.pos, types, old(self).options.param_await, except);
                let n0 = old(self).errors@.len() as int;
                let app = final(self).errors@.skip(n0);
                &&& final(self).options == old(self).options
                &&& final(self).lexer@ == old(self).lexer@.at(q)
                &&& final(self).errors@.len() >= n0
                &&& final(self).errors@.take(n0) == old(self).errors@
                &&& match res {
                    Ok(s) => {
                        &&& r == Some(spec_tree(toks, ts, s, 0, s.ops.len() as int))
                        &&& app.filter(|e: ParseError| spec_is_mixing(e)) == spec_mix_errors(
                            spec_folds(toks, ts, s, 0, s.ops.len() as int),
                        )
                        &&& app.filter(|e: ParseError| !spec_is_mixing(e)) == s.errors
                    },
                    Err(e) => r is None && app.len() > 0 && app.last() == e,
                }
            }),
    {
        proof { use_type_invariant(&self.lexer); }
        let ghost toks = self.lexer@.tokens;
        let ghost p0 = self.lexer@.pos;
        let ghost types = self.options.spec_parse_types();
        let ghost ts = self.options.parse_ts;
        let ghost e0 = self.errors@;
        let except_kind = if !param_in {
            TokenKind::rw_in
        } else {
            TokenKind::none
        };
        let ghost aw = self.options.param_await;
        let ghost full = spec_scan(toks, p0, types, aw, except_kind);

        let first_start = self.lexer.token().start;
        let first = match self.parse_binary_operand(0) {
            Some(e) => e,
            None => {
                proof {
                    assert(self.errors@.skip(e0.len() as int) =~= seq![full.0->Err_0]);
                    assert(self.errors@.take(e0.len() as int) =~= e0);
                }
                return None;
            },
        };
        let first_end = self.lexer.prev_token_end();
        let ghost errs0 = spec_operand(toks, p0, 0, aw).0->Ok_0.1;
        let ghost scan0 = BinaryScan {
            operands: seq![first],
            starts: seq![first_start],
            ends: seq![first_end],
            ops: Seq::empty(),
            errors: errs0,
        };
        let mut st = FoldState {
            stack: Vec::new(),
            top_expr: first,
            top_expr_start: first_start,
            top_expr_end: first_end,
            has_nullish: false,
            has_boolean: false,
        };
        let ghost mut g = FoldGhost { scan: scan0, pos: Seq::empty(), folds: Seq::empty(), app: errs0 };
        proof {
            lemma_first_operand_errors(toks, p0, aw);
            lemma_fold_init(toks, ts, st, g);
            assert(self.errors@ =~= e0 + g.app);
        }
        self.convert_ident_op_if_possible();
        proof { use_type_invariant(&self.lexer); }

        loop
            invariant_except_break
                self.lexer@.tokens == toks,
                toks.len() > 0,
                toks.last().kind == TokenKind::eof,
                0 <= self.lexer@.pos < toks.len(),
                self.lexer@.kind == spec_operator_kind(toks, self.lexer@.pos, types),
                self.options == old(self).options,
                types == self.options.spec_parse_types(),
                ts == self.options.parse_ts,
                aw == self.options.param_await,
                old(self).lexer@.tokens == toks,
                except_kind == (if param_in { TokenKind::none } else { TokenKind::rw_in }),
                p0 == old(self).lexer@.pos,
                full == spec_scan(toks, p0, types, aw, except_kind),
                full == spec_scan_from(toks, self.lexer@.pos, types, aw, except_kind, g.scan),
                fold_ok(toks, ts, st, g),
                st.stack@.len() == g.pos.len(),
                st.stack@.len() == 0 ==> g.scan.ops.len() == 0,
                st.stack@.len() > 0 ==> g.pos.last() == g.scan.ops.len() - 1,
                self.errors@ == e0 + g.app,
                e0 == old(self).errors@,
            ensures
                self.lexer@.tokens == toks,
                self.lexer@ == old(self).lexer@.at(full.1),
                self.options == old(self).options,
                ts == self.options.parse_ts,
                p0 == old(self).lexer@.pos,
                except_kind == (if param_in { TokenKind::none } else { TokenKind::rw_in }),
                full == spec_scan(toks, p0, types, aw, except_kind),
                full.0 == Ok::<BinaryScan, ParseError>(g.scan),
                fold_ok(toks, ts, st, g),
                st.stack@.len() == g.pos.len(),
                self.errors@ == e0 + g.app,
                e0 == old(self).errors@,
            decreases toks.len() - self.lexer@.pos,
        {
            proof { use_type_invariant(&self.lexer); }
            let cur_kind = self.cur_kind();
            let precedence = Self::get_precedence_except(cur_kind, except_kind);
            if precedence == 0 {
                proof {
                    assert(self.lexer@ =~= old(self).lexer@.at(self.lexer@.pos));
                }
                break;
            }
            let ghost p = self.lexer@.pos;
            let ghost i = g.scan.ops.len() as int;
            let ghost scan_head = g.scan;
            let ghost app_head = g.app;

            // Fold the pending operators that bind at least as tightly.
            loop
                invariant_except_break
                    self.lexer@.tokens == toks,
                    self.lexer@.pos == p,
                    self.lexer@.kind == cur_kind,
                    self.options == old(self).options,
                    ts == self.options.parse_ts,
                    i == g.scan.ops.len(),
                    g.scan == scan_head,
                    precedence == spec_precedence(cur_kind),
                    precedence > 0,
                    fold_ok(toks, ts, st, g),
                    st.stack@.len() == g.pos.len(),
                    top_segment_tighter(g, cur_kind),
                    self.errors@ == e0 + g.app,
                ensures
                    self.lexer@.tokens == toks,
                    self.lexer@.pos == p,
                    self.lexer@.kind == cur_kind,
                    self.options == old(self).options,
                    ts == self.options.parse_ts,
                    i == g.scan.ops.len(),
                    g.scan == scan_head,
                    fold_ok(toks, ts, st, g),
                    st.stack@.len() == g.pos.len(),
                    top_segment_tighter(g, cur_kind),
                    st.stack@.len() > 0 ==> !tighter_left(top_op(g), cur_kind),
                    self.errors@ == e0 + g.app,
                decreases st.stack@.len(),
            {
                let n = st.stack.len();
                if n == 0 {
                    break;
                }
                let top = st.stack[n - 1].op_kind;
                let top_prec = Self::get_precedence(top);
                proof {
                    reveal(fold_ok);
                    assert(top == top_op(g));
                }
                if precedence > top_prec {
                    break;
                }
                if precedence == top_prec && !Self::is_left_assoc(top) {
                    break;
                }
                let ghost g_before = g;
                let Ghost(g2) = self.fold_stack_top(&mut st, Ghost(g), Ghost(e0));
                proof {
                    let k = g_before.pos.last();
                    assert forall|t: int|
                        seg_lo(g2.pos, g2.pos.len() as int) <= t < g2.scan.ops.len() implies tighter_left(
                            #[trigger] g2.scan.ops[t],
                            cur_kind,
                        ) by {
                        assert(seg_lo(g2.pos, g2.pos.len() as int) == seg_lo(g_before.pos, n - 1));
                        if t < k {
                            lemma_tighter_left_trans(g2.scan.ops[t], g2.scan.ops[k], cur_kind);
                        } else if t > k {
                            assert(seg_lo(g_before.pos, n as int) == k + 1);
                        }
                    }
                    g = g2;
                }
            }

            // Read the right operand: a type for `as`, otherwise an operand.
            let ghost q = step(toks, p);
            self.advance();
            let rhs_start = self.lexer.token().start;
            let rhs = if cur_kind == TokenKind::as_operator {
                self.parse_type_annotation_flow(None)
            } else {
                self.parse_binary_operand(Self::get_precedence(cur_kind))
            };
            let ghost rres = spec_right_operand(toks, q, cur_kind, aw);
            let rhs = match rhs {
                Some(e) => e,
                None => {
                    proof {
                        assert(spec_operator_kind(toks, p, types) == cur_kind);
                        assert(q == p + 1);
                        assert(rres.0 is Err);
                        assert(full.0 is Err && full.0->Err_0 == rres.0->Err_0);
                        assert(full.1 == rres.1);
                        assert(self.errors@.skip(e0.len() as int) =~= g.app.push(full.0->Err_0));
                        assert(self.lexer@ == old(self).lexer@.at(full.1));
                        assert(self.options == old(self).options);
                        assert(self.errors@.take(e0.len() as int) =~= e0);
                    }
                    return None;
                },
            };
            let rhs_end = self.lexer.prev_token_end();
            proof {
                use_type_invariant(&self.lexer);
                if cur_kind != TokenKind::as_operator {
                    lemma_right_operand_advances(toks, q, cur_kind, aw);
                }
                lemma_operand_errors(toks, q, cur_kind, aw);
            }
            let ghost errs = rres.0->Ok_0.1;
            proof {
                assert(spec_operator_kind(toks, p, types) == cur_kind);
                assert(q == p + 1);
                assert(rres.0 == Ok::<(Expr, Seq<ParseError>), ParseError>((rhs, errs)));
                assert(rhs_start == toks[q].start);
                assert(rhs_end == spec_prev_end(toks, rres.1));
                assert(p < rres.1 <= toks.len());
                assert(full == spec_scan_from(toks, rres.1, types, aw, except_kind, g.scan.extend(cur_kind, rhs, rhs_start, rhs_end, errs)));
            }
            let Ghost(g2) = self.push_operand(&mut st, cur_kind, rhs, rhs_start, rhs_end, Ghost(g), Ghost(errs));
            proof {
                g = g2;
                assert(self.errors@ =~= e0 + g.app);
            }
            self.convert_ident_op_if_possible();
        }

        // Fold what is left on the stack.
        while st.stack.len() > 0
            invariant
                self.lexer@.tokens == toks,
                self.lexer@ == old(self).lexer@.at(full.1),
                self.options == old(self).options,
                ts == self.options.parse_ts,
                p0 == old(self).lexer@.pos,
                except_kind == (if param_in { TokenKind::none } else { TokenKind::rw_in }),
                full == spec_scan(toks, p0, types, aw, except_kind),
                full.0 == Ok::<BinaryScan, ParseError>(g.scan),
                fold_ok(toks, ts, st, g),
                st.stack@.len() == g.pos.len(),
                self.errors@ == e0 + g.app,
                e0 == old(self).errors@,
            decreases st.stack@.len(),
        {
            let Ghost(g2) = self.fold_stack_top(&mut st, Ghost(g), Ghost(e0));
            proof { g = g2; }
        }
        proof {
            reveal(fold_ok);
            assert(self.errors@.skip(e0.len() as int) =~= g.app);
            assert(self.errors@.take(e0.len() as int) =~= e0);
            assert(g.folds =~= spec_folds(toks, ts, g.scan, 0, g.scan.ops.len() as int));
        }
        Some(st.top_expr)
    }
}


/// Pushing operator `op` (the next operator read) over the tree above the
/// stack keeps the stack's description, and the nodes built for the stack's
/// segments then include those of that tree.
proof fn lemma_push_stack_ok(
    toks: Seq<Token>,
    ts: bool,
    scan: BinaryScan,
    scan2: BinaryScan,
    stack: Seq<StackEntry>,
    stack2: Seq<StackEntry>,
    pos: Seq<int>,
    pos2: Seq<int>,
    op: TokenKind,
    rhs: Expr,
    rhs_start: usize,
    rhs_end: usize,
    errs: Seq<ParseError>,
)
    requires
        stack_ok(toks, ts, scan, stack, pos),
        scan2 == scan.extend(op, rhs, rhs_start, rhs_end, errs),
        pos2 == pos.push(scan.ops.len() as int),
        stack2.len() == stack.len() + 1,
        forall|j: int| 0 <= j < stack.len() ==> stack2[j] == stack[j],
        stack2.last().op_kind == op,
        stack2.last().expr == spec_tree(toks, ts, scan, seg_lo(pos, stack.len() as int), scan.ops.len() as int),
        stack2.last().expr_start == scan.starts[seg_lo(pos, stack.len() as int)],
        seg_lo(pos, stack.len() as int) <= scan.ops.len(),
        forall|t: int|
            seg_lo(pos, stack.len() as int) <= t < scan.ops.len() ==> tighter_left(#[trigger] scan.ops[t], op),
        stack.len() > 0 ==> !tighter_left(scan.ops[pos[stack.len() - 1]], op),
    ensures
        stack_ok(toks, ts, scan2, stack2, pos2),
        spec_stack_folds(toks, ts, scan2, pos2, stack.len() + 1 as int) == spec_stack_folds(toks, ts, scan, pos, stack.len() as int)
            + spec_folds(toks, ts, scan, seg_lo(pos, stack.len() as int), scan.ops.len() as int),
{
    let i = scan.ops.len() as int;
    let m = stack.len() as int;
    lemma_push_trees(toks, ts, scan, scan2, stack, stack2, pos, pos2, op, rhs, rhs_start, rhs_end, errs);
    lemma_push_order(toks, ts, scan, scan2, stack, pos, pos2, op, rhs, rhs_start, rhs_end, errs);
}

/// The trees of the stack's segments after a push.
#[verifier::rlimit(60)]
proof fn lemma_push_trees(
    toks: Seq<Token>,
    ts: bool,
    scan: BinaryScan,
    scan2: BinaryScan,
    stack: Seq<StackEntry>,
    stack2: Seq<StackEntry>,
    pos: Seq<int>,
    pos2: Seq<int>,
    op: TokenKind,
    rhs: Expr,
    rhs_start: usize,
    rhs_end: usize,
    errs: Seq<ParseError>,
)
    requires
        stack_ok(toks, ts, scan, stack, pos),
        scan2 == scan.extend(op, rhs, rhs_start, rhs_end, errs),
        pos2 == pos.push(scan.ops.len() as int),
        stack2.len() == stack.len() + 1,
        forall|j: int| 0 <= j < stack.len() ==> stack2[j] == stack[j],
        stack2.last().op_kind == op,
        stack2.last().expr == spec_tree(toks, ts, scan, seg_lo(pos, stack.len() as int), scan.ops.len() as int),
        stack2.last().expr_start == scan.starts[seg_lo(pos, stack.len() as int)],
        seg_lo(pos, stack.len() as int) <= scan.ops.len(),
    ensures
        scan2.wf(),
        pos2.len() == stack2.len(),
        forall|j: int| 0 <= j < stack2.len() ==> 0 <= seg_lo(pos2, j) <= #[trigger] pos2[j] < scan2.ops.len(),
        forall|j: int| 0 <= j < stack2.len() ==> (#[trigger] stack2[j]).op_kind == scan2.ops[pos2[j]],
        forall|j: int|
            0 <= j < stack2.len() ==> (#[trigger] stack2[j]).expr == spec_tree(toks, ts, scan2, seg_lo(pos2, j), pos2[j]),
        forall|j: int| 0 <= j < stack2.len() ==> (#[trigger] stack2[j]).expr_start == scan2.starts[seg_lo(pos2, j)],
        spec_stack_folds(toks, ts, scan2, pos2, stack.len() + 1 as int) == spec_stack_folds(toks, ts, scan, pos, stack.len() as int)
            + spec_folds(toks, ts, scan, seg_lo(pos, stack.len() as int), scan.ops.len() as int),
{
    let i = scan.ops.len() as int;
    let m = stack.len() as int;
    assert(scans_agree(scan, scan2, i)) by {
        assert forall|t: int| 0 <= t < i implies scan.ops[t] == scan2.ops[t] by {}
        assert forall|t: int| 0 <= t <= i implies scan.operands[t] == scan2.operands[t] by {}
        assert forall|t: int| 0 <= t <= i implies scan.starts[t] == scan2.starts[t] by {}
        assert forall|t: int| 0 <= t <= i implies scan.ends[t] == scan2.ends[t] by {}
    }
    assert forall|j: int| 0 <= j < m implies 0 <= seg_lo(pos, j) <= #[trigger] pos[j] < scan.operands.len() by {}
    lemma_stack_prefix(toks, ts, scan, scan2, pos, m);
    lemma_tree_prefix(toks, ts, scan, scan2, seg_lo(pos, m), i);
    assert forall|j: int| 0 <= j < m implies seg_lo(pos2, j) == seg_lo(pos, j) && pos2[j] == pos[j] by {}
    lemma_stack_folds_pos(toks, ts, scan2, pos, pos2, m);
    assert(scan2.ops[i] == op);
    assert forall|j: int| 0 <= j < m + 1 implies (#[trigger] stack2[j]).expr == spec_tree(toks, ts, scan2, seg_lo(pos2, j), pos2[j]) by {}
    assert forall|j: int| 0 <= j < m + 1 implies (#[trigger] stack2[j]).op_kind == scan2.ops[pos2[j]] by {}
    assert forall|j: int| 0 <= j < m + 1 implies (#[trigger] stack2[j]).expr_start == scan2.starts[seg_lo(pos2, j)] by {}
    assert forall|j: int| 0 <= j < m + 1 implies 0 <= seg_lo(pos2, j) <= #[trigger] pos2[j] < i + 1 by {}
}

/// The ordering facts of the stack after a push.
#[verifier::rlimit(60)]
proof fn lemma_push_order(
    toks: Seq<Token>,
    ts: bool,
    scan: BinaryScan,
    scan2: BinaryScan,
    stack: Seq<StackEntry>,
    pos: Seq<int>,
    pos2: Seq<int>,
    op: TokenKind,
    rhs: Expr,
    rhs_start: usize,
    rhs_end: usize,
    errs: Seq<ParseError>,
)
    requires
        stack_ok(toks, ts, scan, stack, pos),
        scan2 == scan.extend(op, rhs, rhs_start, rhs_end, errs),
        pos2 == pos.push(scan.ops.len() as int),
        seg_lo(pos, stack.len() as int) <= scan.ops.len(),
        forall|t: int|
            seg_lo(pos, stack.len() as int) <= t < scan.ops.len() ==> tighter_left(#[trigger] scan.ops[t], op),
        stack.len() > 0 ==> !tighter_left(scan.ops[pos[stack.len() - 1]], op),
    ensures
        forall|j1: int, j2: int| 0 <= j1 < j2 < stack.len() + 1 ==> #[trigger] pos2[j1] < #[trigger] pos2[j2],
        forall|j: int, t: int|
            0 <= j < stack.len() + 1 && seg_lo(pos2, j) <= t < pos2[j] ==> tighter_left(
                #[trigger] scan2.ops[t],
                #[trigger] scan2.ops[pos2[j]],
            ),
        forall|j: int, t: int|
            0 <= j < stack.len() + 1 && pos2[j] < t < scan2.ops.len() ==> tighter_right(#[trigger] scan2.ops[t], #[trigger] scan2.ops[pos2[j]]),
{
    let i = scan.ops.len() as int;
    let m = stack.len() as int;
    assert forall|j: int| 0 <= j < m implies seg_lo(pos2, j) == seg_lo(pos, j) && pos2[j] == pos[j] by {}
    assert forall|j: int| 0 <= j < m implies tighter_right(op, #[trigger] scan.ops[pos[j]]) by {
        if j < m - 1 {
            assert(pos[j] < pos[m - 1] < i);
            assert(tighter_right(scan.ops[pos[m - 1]], scan.ops[pos[j]]));
            lemma_tighter_right_trans(op, scan.ops[pos[m - 1]], scan.ops[pos[j]]);
        }
    }
    assert(scan2.ops[i] == op);
    assert forall|j: int, t: int|
        0 <= j < m + 1 && seg_lo(pos2, j) <= t < pos2[j] implies tighter_left(
            #[trigger] scan2.ops[t],
            #[trigger] scan2.ops[pos2[j]],
        ) by {
        assert(scan2.ops[t] == scan.ops[t]);
        if j < m {
            assert(scan2.ops[pos2[j]] == scan.ops[pos[j]]);
        }
    }
    assert forall|j: int, t: int|
        0 <= j < m + 1 && pos2[j] < t < i + 1 implies tighter_right(
            #[trigger] scan2.ops[t],
            #[trigger] scan2.ops[pos2[j]],
        ) by {
        if t < i {
            assert(scan2.ops[t] == scan.ops[t]);
            assert(scan2.ops[pos2[j]] == scan.ops[pos[j]]);
        } else {
            assert(scan2.ops[pos2[j]] == scan.ops[pos[j]]);
        }
    }
}

/// A unary expression that parses consumes at least one token and stops
/// before the end.
proof fn lemma_unary_advances(toks: Seq<Token>, p: int, aw: bool)
    requires
        toks.len() > 0,
        toks.last().kind == TokenKind::eof,
        0 <= p < toks.len(),
    ensures
        spec_unary(toks, p, aw).0 is Ok ==> p < spec_unary(toks, p, aw).1 < toks.len(),
    decreases toks.len() - p,
{
    reveal(spec_unary);
    let t = toks[p];
    if (aw && is_name_at(toks, p, spec_await_name())) || spec_is_unary_op(t.kind) || spec_is_update_op(
        t.kind,
    ) {
        let q = step(toks, p);
        if 0 <= p < q {
            lemma_unary_advances(toks, q, aw);
        }
    } else {
        lemma_postfix_advances(toks, p);
    }
}

/// A member chain that parses stops at or after where it starts, before
/// the end.
proof fn lemma_member_chain_advances(toks: Seq<Token>, q: int, e: Expr)
    requires
        toks.len() > 0,
        toks.last().kind == TokenKind::eof,
        0 <= q < toks.len(),
    ensures
        spec_member_chain_expr(toks, q, e).0 is Ok ==> q <= spec_member_chain_expr(toks, q, e).1 < toks.len(),
    decreases toks.len() - q,
{
    if toks[q].kind == TokenKind::period {
        let q1 = step(toks, q);
        if q < q1 {
            let pk = toks[q1].kind;
            if pk == TokenKind::identifier || spec_is_reserved_word(pk) || pk == TokenKind::private_identifier {
                let prop = Expr { parens: 0,
                    node: if pk == TokenKind::private_identifier {
                        Node::PrivateName(q1 as usize)
                    } else {
                        Node::Identifier(q1 as usize)
                    },
                    start: toks[q1].start,
                    end: toks[q1].end,
                };
                let e2 = Expr { parens: 0,
                    node: Node::MemberExpression { object: Box::new(e), property: Box::new(prop), computed: false },
                    start: e.start,
                    end: toks[q1].end,
                };
                lemma_member_chain_advances(toks, step(toks, q1), e2);
            }
        }
    }
}

/// A postfix expression that parses consumes at least one token and stops
/// before the end.
proof fn lemma_postfix_advances(toks: Seq<Token>, p: int)
    requires
        toks.len() > 0,
        toks.last().kind == TokenKind::eof,
        0 <= p < toks.len(),
    ensures
        spec_postfix(toks, p).0 is Ok ==> p < spec_postfix(toks, p).1 < toks.len(),
        spec_primary(toks, p).0 is Ok ==> p < spec_primary(toks, p).1 < toks.len(),
    decreases toks.len() - p,
{
    let q = step(toks, p);
    if toks[p].kind == TokenKind::l_paren && p < q && toks[q].kind != TokenKind::r_paren {
        lemma_postfix_advances(toks, q);
    }
    match spec_primary(toks, p) {
        (Ok(e0), q0) => {
            if p < q0 < toks.len() {
                lemma_member_chain_advances(toks, q0, e0);
            }
        },
        _ => {},
    }
}

/// The right operand of an operator other than `as` that parses consumes at
/// least one token and stops before the end.
proof fn lemma_right_operand_advances(toks: Seq<Token>, q: int, k: TokenKind, aw: bool)
    requires
        k != TokenKind::as_operator,
        toks.len() > 0,
        toks.last().kind == TokenKind::eof,
        0 <= q < toks.len(),
    ensures
        spec_right_operand(toks, q, k, aw).0 is Ok ==> q < spec_right_operand(toks, q, k, aw).1 < toks.len(),
{
    lemma_unary_advances(toks, q, aw);
}

/// The stack's segments and their nodes depend only on the positions of
/// the first `m` entries.
proof fn lemma_stack_folds_pos(
    toks: Seq<Token>,
    ts: bool,
    s: BinaryScan,
    pos: Seq<int>,
    pos2: Seq<int>,
    m: int,
)
    requires
        0 <= m <= pos.len(),
        m <= pos2.len(),
        forall|j: int| 0 <= j < m ==> pos[j] == pos2[j],
    ensures
        spec_stack_folds(toks, ts, s, pos, m) == spec_stack_folds(toks, ts, s, pos2, m),
    decreases m,
{
    if m > 0 {
        lemma_stack_folds_pos(toks, ts, s, pos, pos2, m - 1);
        assert(seg_lo(pos, m - 1) == seg_lo(pos2, m - 1));
    }
}

/// A property name at `p`: a string, number or bigint literal, or a name
/// (an identifier or a reserved word). A computed key `[expr]` is reported
/// as unsupported; any other token as not a property name.
pub open spec fn spec_property_name(toks: Seq<Token>, p: int) -> (Result<Expr, ParseError>, int) {
    match toks[p].kind {
        TokenKind::string_literal => spec_leaf(toks, p, Node::StringLiteral(p as usize)),
        TokenKind::numeric_literal => spec_leaf(toks, p, Node::NumericLiteral(p as usize)),
        TokenKind::bigint_literal => spec_leaf(toks, p, Node::BigIntLiteral(p as usize)),
        TokenKind::identifier => spec_leaf(toks, p, Node::Identifier(p as usize)),
        TokenKind::l_square => (Err(err_at(ErrorKind::Unsupported(UnsupportedSyntax::ComputedPropertyKey), toks[p])), p),
        k => if spec_is_reserved_word(k) {
            spec_leaf(toks, p, Node::Identifier(p as usize))
        } else {
            (Err(err_at(ErrorKind::InvalidPropertyName, toks[p])), p)
        },
    }
}

impl JSParserImpl {
    /// Parse a property name: a string, number or bigint literal, or a name
    /// (an identifier or a reserved word). A computed key `[expr]` is
    /// reported as unsupported; any other token as not a property name.
    pub fn parse_property_name(&mut self) -> (r: Option<Expr>)
        requires
            old(self).lexer@.is_fresh(),
        ensures
            ({
                let (res, q) = spec_property_name(old(self).lexer@.tokens, old(self).lexer@.pos);
                &&& final(self).options == old(self).options
                &&& final(self).lexer@ == old(self).lexer@.at(q)
                &&& match res {
                    Ok(e) => r == Some(e) && final(self).errors@ == old(self).errors@,
                    Err(e) => r is None && final(self).errors@ == old(self).errors@.push(e),
                }
            }),
            r is Some ==> final(self).lexer@.pos > old(self).lexer@.pos,
    {
        proof { use_type_invariant(&self.lexer); }
        assert(old(self).lexer@.at(old(self).lexer@.pos) == old(self).lexer@);
        let idx = self.lexer.cur_index();
        let (start, end) = self.lexer.cur_range();
        let kind = self.cur_kind();
        let node = match kind {
            TokenKind::string_literal => Node::StringLiteral(idx),
            TokenKind::numeric_literal => Node::NumericLiteral(idx),
            TokenKind::bigint_literal => Node::BigIntLiteral(idx),
            TokenKind::identifier => Node::Identifier(idx),
            TokenKind::l_square => {
                self.error_cur(ErrorKind::Unsupported(UnsupportedSyntax::ComputedPropertyKey));
                return None;
            },
            _ => {
                if !is_reserved_word(kind) {
                    self.error_cur(ErrorKind::InvalidPropertyName);
                    return None;
                }
                Node::Identifier(idx)
            },
        };
        self.advance();
        Some(Expr { parens: 0, node, start, end })
    }
}

} // verus!
