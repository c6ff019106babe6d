//! The parser: its state (the token cursor, the enabled dialects and the
//! diagnostics reported so far) and the token tests every production uses.

use vstd::prelude::*;

use crate::lexer::{step, JSLexer, LexerState, Token};
use crate::js::flow::declarations::EnumKind;
use crate::js::flow::types::UnsupportedSyntax;
use crate::token_kinds::TokenKind;

pub mod assignment;
pub mod classes;
pub mod expressions;
pub mod flow;
pub mod precedence;

verus! {

/// Which language extensions the parser accepts, and the context that
/// decides how `await`, `yield` and `let` are read.
#[derive(Clone, Copy, Debug, PartialEq, Eq, Structural)]
pub struct ParserOptions {
    /// Flow type syntax.
    pub parse_flow: bool,
    /// TypeScript type syntax.
    pub parse_ts: bool,
    /// Flow `component` and `hook` declarations.
    pub parse_flow_component_syntax: bool,
    /// Flow `record` declarations.
    pub parse_flow_records: bool,
    /// Whether the code being parsed is inside an async function, where
    /// `await` is an operator.
    pub param_await: bool,
    /// Whether the code being parsed is inside a generator, where `yield`
    /// is an operator.
    pub param_yield: bool,
    /// Whether the code being parsed is strict-mode code.
    pub strict_mode: bool,
}

impl ParserOptions {
    /// Whether type annotations of either dialect are parsed.
    pub open spec fn spec_parse_types(self) -> bool {
        self.parse_flow || self.parse_ts
    }
}

/// What went wrong, for a diagnostic.
#[derive(Clone, Copy, Debug, PartialEq, Eq, Structural)]
pub enum ErrorKind {
    /// The given token kind was expected and is missing.
    Expected(TokenKind),
    /// A token that cannot start an expression.
    UnexpectedToken,
    /// A token that cannot start an expression, reported at the point where
    /// it starts.
    InvalidExpression,
    /// `<` where an expression starts: JSX, which is not parsed.
    PossibleJsx,
    /// A token that cannot start a type annotation.
    UnexpectedTypeToken,
    /// `??` used beside `&&` or `||` without parentheses.
    MixingNullishAndLogical,
    /// A prefix unary operator directly before `**`.
    UnaryBeforeExponent,
    /// A private name `#x` that is not the left-hand side of `in`.
    PrivateNameNotInLhs,
    /// The inexact `...` of an enum body is followed by more members.
    EnumInexactNotLast,
    /// A member's initializer (of the first kind) does not match the kind of
    /// the enum (the second).
    EnumInitializerMismatch(EnumKind, EnumKind),
    /// Some members of an enum have initializers and some do not.
    EnumInconsistentInitializers,
    /// A number, bigint or boolean enum has members without initializers.
    EnumMissingInitializers,
    /// An enum member's `=` is not followed by a literal of a valid kind.
    EnumMemberInitializerExpected,
    /// Syntax that is recognised but not parsed.
    Unsupported(UnsupportedSyntax),
    /// `yield` used as a binding name in strict code or in a generator.
    YieldAsIdentifier,
    /// `await` used as a binding name in an async function.
    AwaitAsIdentifier,
    /// `let` used as a binding name in strict code.
    StrictReservedBinding,
    /// A token that cannot start a match pattern.
    InvalidMatchPattern,
    /// A `+` or `-` match pattern not followed by a number or bigint.
    InvalidMatchUnaryArgument,
    /// `as` in a match pattern not followed by a name or a binding pattern.
    ExpectedMatchBindingTarget,
    /// A computed member of a match pattern that is not a number, bigint or
    /// string literal.
    ExpectedMatchComputedKey,
    /// A match object pattern property key that is not a name, string,
    /// number or bigint.
    ExpectedMatchPropertyKey,
    /// The private name `#constructor`.
    PrivateNameConstructor,
    /// A `this` constraint of a function type marked optional.
    ThisConstraintOptional,
    /// A `this` constraint that is not the first parameter of a function
    /// type.
    ThisConstraintNotFirst,
    /// A `this` constraint in a hook type.
    HookThisConstraint,
    /// `implies` in a return type followed by a type that is not a bare
    /// name.
    ImpliesNeedsIdentifier,
    /// `implies x` in a return type not followed by `is`.
    ImpliesExpectsIs,
    /// An object type getter with parameters.
    GetterParameters,
    /// An object type setter without exactly one parameter.
    SetterParameters,
    /// An object type getter or setter with a `this` constraint.
    AccessorThisConstraint,
    /// A variance sigil on an object type member that cannot have one.
    UnexpectedVarianceSigil,
    /// A `proto` modifier on an object type member that cannot have one.
    InvalidProtoModifier,
    /// A `static` modifier on an object type member that cannot have one.
    InvalidStaticModifier,
    /// A variance sigil on an object type call property.
    CallPropertyVariance,
    /// A variance sigil on an object type getter or setter.
    AccessorVariance,
    /// A token that cannot be a property name.
    InvalidPropertyName,
    /// Neither of the two given token kinds is there.
    ExpectedEither(TokenKind, TokenKind),
    /// An object type member not followed by `,`, `;`, `}` or `|}`.
    ExpectedPropertySeparator,
    /// A spread `...T` in an object type that does not allow one.
    SpreadOutsideObjectType,
    /// The inexact `...` inside an exact object type `{| |}`.
    InexactInExactObject,
    /// A `match` whose argument list is empty.
    MatchArgumentEmpty,
    /// A spread element in the argument list of a `match`.
    MatchArgumentSpread,
    /// `declare` not followed by `type` or `interface` in a declaration.
    InvalidDeclareToken,
    /// `opaque` not followed by `type`.
    InvalidOpaqueToken,
    /// `declare opaque` not followed by `type`.
    TypeRequiredAfterOpaque,
    /// `declare async hook`: hooks are declared without `async`.
    AsyncDeclaredHook,
    /// `declare async component`: components are declared without `async`.
    AsyncDeclaredComponent,
    /// A computed key in a record body.
    RecordComputedProperty,
    /// A private name in a record body.
    RecordPrivateElement,
    /// A record property named `constructor`, or a static one named
    /// `prototype`.
    InvalidRecordPropertyName,
    /// `async` or `*` on a record property that is not a method.
    RecordModifierOnProperty,
    /// A static record property without an initializer.
    StaticRecordPropertyInitializer,
    /// A record member key not followed by `:`, `(` or `<`.
    ExpectedRecordMember,
    /// A class getter with parameters.
    GetterMethodParameters,
    /// A class setter without exactly one parameter.
    SetterMethodParameters,
    /// A class getter or setter with type parameters.
    AccessorTypeParameters,
    /// A static class method named `prototype`.
    StaticPrototypeMethod,
    /// A private class method named `#constructor`.
    PrivateConstructorMethod,
    /// A class constructor that is a getter, setter, generator or async.
    SpecialConstructor,
    /// A private class property named `#constructor`.
    PrivateConstructorProperty,
    /// An accessibility modifier on a private class property.
    PrivateAccessibility,
    /// A static class property named `prototype`.
    StaticPrototypeProperty,
    /// `declare module.` not followed by `exports`.
    ExpectedModuleExports,
    /// An expression that cannot be the parameters of an arrow function.
    InvalidArrowParameters,
    /// Parentheses around one arrow function parameter.
    ParenthesizedParameter,
    /// A rest parameter that is not the last one.
    RestParameterNotLast,
    /// An arrow function parameter that is neither a name nor a pattern.
    IdentifierOrPatternExpected,
    /// More than the allowed number of assignments nested in one chain.
    TooManyNestedAssignments,
    /// A token after an assignment that cannot end it.
    UnexpectedAfterAssignment,
    /// A reserved word exported by name without a `from` clause.
    InvalidExportedName,
    /// None of the three given token kinds is there.
    ExpectedOneOf3(TokenKind, TokenKind, TokenKind),
    /// None of the five given token kinds is there.
    ExpectedOneOf5(TokenKind, TokenKind, TokenKind, TokenKind, TokenKind),
    /// A declared variable without a type annotation.
    MissingDeclaredVarType,
    /// `export *` not followed by `from`.
    ExpectedFromClause,
}

/// A diagnostic: what went wrong and the source range `[start, end)` it
/// concerns.
#[derive(Clone, Copy, Debug, PartialEq, Eq, Structural)]
pub struct ParseError {
    pub kind: ErrorKind,
    pub start: usize,
    pub end: usize,
}

/// The end of a statement at `r`: a `;` (consumed), or, where a semicolon
/// may be left out, a `}`, the end of input or a line break before the
/// token. Gives whether the statement ends there and the position after.
pub open spec fn spec_eat_semi(toks: Seq<Token>, r: int) -> (bool, int) {
    if toks[r].kind == TokenKind::semi {
        (true, step(toks, r))
    } else if toks[r].kind == TokenKind::r_brace || toks[r].kind == TokenKind::eof
        || toks[r].new_line_before {
        (true, r)
    } else {
        (false, r)
    }
}

/// The parser state.
pub struct JSParserImpl {
    /// The token cursor.
    pub lexer: JSLexer,
    /// The enabled language extensions.
    pub options: ParserOptions,
    /// Diagnostics reported so far, oldest first.
    pub errors: Vec<ParseError>,
    /// Whether a parenthesized type may be read as the parameter list of a
    /// function type even when nothing inside it forces that reading (a
    /// leading `...`, a comma, or a `=>` after the `)`).
    pub allow_anon_function_type: bool,
}

impl JSParserImpl {
    /// A parser at the start of `lexer`, with no diagnostics, where
    /// parenthesized types may be function types.
    pub fn new(lexer: JSLexer, options: ParserOptions) -> (r: JSParserImpl)
        ensures
            r.lexer@ == lexer@,
            r.options == options,
            r.errors@ == Seq::<ParseError>::empty(),
            r.allow_anon_function_type,
    {
        JSParserImpl { lexer, options, errors: Vec::new(), allow_anon_function_type: true }
    }

    /// The kind of the current token.
    pub fn cur_kind(&self) -> (r: TokenKind)
        ensures
            r == self.lexer@.kind,
    {
        self.lexer.cur_kind()
    }

    /// Whether the current token is of kind `k`.
    pub fn check(&self, k: TokenKind) -> (r: bool)
        ensures
            r == (self.lexer@.kind == k),
    {
        self.lexer.cur_kind() == k
    }

    /// Whether the current token is of kind `k1` or `k2`.
    pub fn check2(&self, k1: TokenKind, k2: TokenKind) -> (r: bool)
        ensures
            r == (self.lexer@.kind == k1 || self.lexer@.kind == k2),
    {
        let k = self.lexer.cur_kind();
        k == k1 || k == k2
    }

    /// Whether the current token is of one of four kinds.
    pub fn check_n4(&self, k1: TokenKind, k2: TokenKind, k3: TokenKind, k4: TokenKind) -> (r: bool)
        ensures
            r == (self.lexer@.kind == k1 || self.lexer@.kind == k2 || self.lexer@.kind == k3
                || self.lexer@.kind == k4),
    {
        let k = self.lexer.cur_kind();
        k == k1 || k == k2 || k == k3 || k == k4
    }

    /// Whether type annotations (Flow or TypeScript) are parsed.
    pub fn parse_types(&self) -> (r: bool)
        ensures
            r == self.options.spec_parse_types(),
    {
        self.options.parse_flow || self.options.parse_ts
    }

    /// Move to the next token; returns the source range of the token left.
    pub fn advance(&mut self) -> (r: (usize, usize))
        ensures
            final(self).lexer@ == old(self).lexer@.at(old(self).lexer@.next_pos()),
            r == (old(self).lexer@.cur().start, old(self).lexer@.cur().end),
            final(self).options == old(self).options,
            final(self).errors@ == old(self).errors@,
    {
        self.lexer.advance()
    }

    /// Report a diagnostic.
    pub fn error_at(&mut self, kind: ErrorKind, start: usize, end: usize)
        ensures
            final(self).errors@ == old(self).errors@.push(
                ParseError { kind, start, end },
            ),
            final(self).lexer@ == old(self).lexer@,
            final(self).options == old(self).options,
    {
        self.errors.push(ParseError { kind, start, end });
    }

    /// Report a diagnostic at the current token.
    pub fn error_cur(&mut self, kind: ErrorKind)
        ensures
            final(self).errors@ == old(self).errors@.push(
                ParseError { kind, start: old(self).lexer@.cur().start, end: old(self).lexer@.cur().end },
            ),
            final(self).lexer@ == old(self).lexer@,
            final(self).options == old(self).options,
    {
        let (start, end) = self.lexer.cur_range();
        self.errors.push(ParseError { kind, start, end });
    }

    /// When the current token is of kind `k`, move past it and return true;
    /// otherwise leave the cursor and return false.
    pub fn check_and_eat(&mut self, k: TokenKind) -> (r: bool)
        ensures
            r == (old(self).lexer@.kind == k),
            final(self).lexer@ == (if r {
                old(self).lexer@.at(old(self).lexer@.next_pos())
            } else {
                old(self).lexer@
            }),
            final(self).options == old(self).options,
            final(self).errors@ == old(self).errors@,
    {
        if self.lexer.cur_kind() == k {
            self.lexer.advance();
            true
        } else {
            false
        }
    }

    /// When the current token is of kind `k`, move past it and return true;
    /// otherwise report that `k` was expected at the current token and return
    /// false.
    pub fn eat(&mut self, k: TokenKind) -> (r: bool)
        ensures
            r == (old(self).lexer@.kind == k),
            final(self).lexer@ == (if r {
                old(self).lexer@.at(old(self).lexer@.next_pos())
            } else {
                old(self).lexer@
            }),
            final(self).options == old(self).options,
            final(self).errors@ == (if r {
                old(self).errors@
            } else {
                old(self).errors@.push(ParseError {
                    kind: ErrorKind::Expected(k),
                    start: old(self).lexer@.cur().start,
                    end: old(self).lexer@.cur().end,
                })
            }),
    {
        if self.need(k) {
            self.advance();
            true
        } else {
            false
        }
    }

    /// End a statement: move past a `;`, or accept its absence before a
    /// `}`, at the end of input or after a line break. Otherwise report that
    /// `;` was expected and return false.
    pub fn eat_semi(&mut self) -> (r: bool)
        requires
            old(self).lexer@.is_fresh(),
        ensures
            ({
                let toks = old(self).lexer@.tokens;
                let p = old(self).lexer@.pos;
                let (ok, s) = spec_eat_semi(toks, p);
                &&& r == ok
                &&& final(self).lexer@ == old(self).lexer@.at(s)
                &&& final(self).options == old(self).options
                &&& final(self).errors@ == (if ok {
                    old(self).errors@
                } else {
                    old(self).errors@.push(ParseError {
                        kind: ErrorKind::Expected(TokenKind::semi),
                        start: toks[p].start,
                        end: toks[p].end,
                    })
                })
            }),
    {
        proof { use_type_invariant(&self.lexer); }
        if self.check(TokenKind::semi) {
            self.advance();
            return true;
        }
        if self.check2(TokenKind::r_brace, TokenKind::eof) || self.lexer.is_new_line_before_current_token() {
            assert(self.lexer@ == old(self).lexer@.at(old(self).lexer@.pos));
            return true;
        }
        self.error_cur(ErrorKind::Expected(TokenKind::semi));
        assert(self.lexer@ == old(self).lexer@.at(old(self).lexer@.pos));
        false
    }

    /// When the current token is of kind `k` return true; otherwise report
    /// that `k` was expected at the current token and return false. The
    /// cursor does not move.
    pub fn need(&mut self, k: TokenKind) -> (r: bool)
        ensures
            r == (old(self).lexer@.kind == k),
            final(self).lexer@ == old(self).lexer@,
            final(self).options == old(self).options,
            final(self).errors@ == (if r {
                old(self).errors@
            } else {
                old(self).errors@.push(ParseError {
                    kind: ErrorKind::Expected(k),
                    start: old(self).lexer@.cur().start,
                    end: old(self).lexer@.cur().end,
                })
            }),
    {
        if self.lexer.cur_kind() == k {
            true
        } else {
            self.error_cur(ErrorKind::Expected(k));
            false
        }
    }
}

/// Whether the byte strings `a` and `b` are equal.
pub fn bytes_eq(a: &[u8], b: &[u8]) -> (r: bool)
    ensures
        r == (a@ == b@),
{
    if a.len() != b.len() {
        return false;
    }
    let mut i: usize = 0;
    while i < a.len()
        invariant
            a.len() == b.len(),
            0 <= i <= a.len(),
            forall|j: int| 0 <= j < i ==> a@[j] == b@[j],
        decreases a.len() - i,
    {
        if a[i] != b[i] {
            return false;
        }
        i = i + 1;
    }
    assert(a@ =~= b@);
    true
}

} // verus!
