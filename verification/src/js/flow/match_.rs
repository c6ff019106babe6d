//! Flow `match` expressions and statements: the test for the start of a
//! match, and match patterns.
//!
//! A pattern parse gives its result (`None` when it stopped), the
//! diagnostics it reported, and the position it stopped at.

use vstd::prelude::*;

use crate::js::expressions::{boxed, spec_await_name, spec_prev_end, Expr, Node, NodeList};
use crate::js::flow::function_types::{list_from_vec, spec_list_of};
use crate::js::{bytes_eq, ErrorKind, JSParserImpl, ParseError, ParserOptions};
use crate::lexer::{is_name_at, step, Token};
use crate::token_kinds::{is_reserved_word, spec_is_reserved_word, TokenKind};

verus! {

/// The bytes of the contextual keyword `match`.
pub open spec fn spec_match_name() -> Seq<u8> {
    seq![109u8, 97u8, 116u8, 99u8, 104u8]
}

/// The keyword of a binding in a match pattern.
#[derive(Clone, Copy, Debug, PartialEq, Eq, Structural)]
pub enum BindingKind {
    Const,
    Var,
    Let,
}

/// The name `let`.
pub open spec fn spec_let_name() -> Seq<u8> {
    seq![108u8, 101u8, 116u8]
}

/// The name `yield`.
pub open spec fn spec_yield_name() -> Seq<u8> {
    seq![121u8, 105u8, 101u8, 108u8, 100u8]
}

/// The name `_`.
pub open spec fn spec_wildcard_name() -> Seq<u8> {
    seq![95u8]
}

/// The name `as`.
pub open spec fn spec_as_name() -> Seq<u8> {
    seq![97u8, 115u8]
}

/// A diagnostic at the single point where the token `t` starts.
pub open spec fn point_err(kind: ErrorKind, t: Token) -> ParseError {
    ParseError { kind, start: t.start, end: t.start }
}

/// A diagnostic of the given kind covering the token `t`.
pub open spec fn tok_err(kind: ErrorKind, t: Token) -> ParseError {
    ParseError { kind, start: t.start, end: t.end }
}

/// The binding keyword at `p`, if any: `const`, `var` or the name `let`.
pub open spec fn spec_binding_keyword(toks: Seq<Token>, p: int) -> Option<BindingKind> {
    if toks[p].kind == TokenKind::rw_const {
        Some(BindingKind::Const)
    } else if toks[p].kind == TokenKind::rw_var {
        Some(BindingKind::Var)
    } else if is_name_at(toks, p, spec_let_name()) {
        Some(BindingKind::Let)
    } else {
        None
    }
}

/// The literal node of the token at `p`, when it is `null`, `true`,
/// `false`, a number, a bigint or a string.
pub open spec fn spec_match_literal(toks: Seq<Token>, p: int) -> Option<Node> {
    match toks[p].kind {
        TokenKind::rw_null => Some(Node::NullLiteral),
        TokenKind::rw_true => Some(Node::BooleanLiteral(true)),
        TokenKind::rw_false => Some(Node::BooleanLiteral(false)),
        TokenKind::numeric_literal => Some(Node::NumericLiteral(p as usize)),
        TokenKind::bigint_literal => Some(Node::BigIntLiteral(p as usize)),
        TokenKind::string_literal => Some(Node::StringLiteral(p as usize)),
        _ => None,
    }
}

/// The node `n` spanning exactly the token at `p`.
pub open spec fn spec_at(toks: Seq<Token>, p: int, n: Node) -> Expr {
    Expr { parens: 0, node: n, start: toks[p].start, end: toks[p].end }
}

/// The name a token spells when used as a binding: an identifier's name,
/// `yield` for the reserved word, and nothing for any other token.
pub open spec fn spec_binding_name(t: Token) -> Seq<u8> {
    if t.kind == TokenKind::identifier {
        t.value@
    } else if t.kind == TokenKind::rw_yield {
        spec_yield_name()
    } else {
        Seq::empty()
    }
}

/// The checks on the name `name` of a token of kind `kind`, covering
/// `[start, end)`, used as a binding: the diagnostics for `yield` in strict
/// code or a generator, `await` in an async function and `let` in strict
/// code, and whether the token may be a binding name at all (an identifier
/// or `yield`).
pub open spec fn spec_binding_checks(name: Seq<u8>, kind: TokenKind, o: ParserOptions, start: usize, end: usize) -> (Seq<ParseError>, bool) {
    let e1 = if name == spec_yield_name() && (o.strict_mode || o.param_yield) {
        seq![ParseError { kind: ErrorKind::YieldAsIdentifier, start, end }]
    } else {
        Seq::empty()
    };
    let e2 = if name == spec_await_name() && o.param_await {
        seq![ParseError { kind: ErrorKind::AwaitAsIdentifier, start, end }]
    } else {
        Seq::empty()
    };
    let e3 = if name == spec_let_name() && o.strict_mode {
        seq![ParseError { kind: ErrorKind::StrictReservedBinding, start, end }]
    } else {
        Seq::empty()
    };
    (e1 + e2 + e3, kind == TokenKind::identifier || kind == TokenKind::rw_yield)
}

/// The checks on the token at `p` used as a binding name.
pub open spec fn spec_validate_binding(toks: Seq<Token>, p: int, o: ParserOptions) -> (Seq<ParseError>, bool) {
    spec_binding_checks(spec_binding_name(toks[p]), toks[p].kind, o, toks[p].start, toks[p].end)
}

/// A binding name at `p`. Its node is located at the token that follows
/// the name.
pub open spec fn spec_binding_identifier(toks: Seq<Token>, p: int, o: ParserOptions) -> (Option<Expr>, Seq<ParseError>, int) {
    let (errs, ok) = spec_validate_binding(toks, p, o);
    if !ok {
        (None, errs, p)
    } else {
        let q = step(toks, p);
        (Some(spec_at(toks, q, Node::Identifier(p as usize))), errs, q)
    }
}

/// A binding pattern `const x`, `var x` or `let x` at `p`.
pub open spec fn spec_binding_pattern(toks: Seq<Token>, p: int, o: ParserOptions) -> (Option<Expr>, Seq<ParseError>, int) {
    let q = step(toks, p);
    if !(toks[q].kind == TokenKind::identifier || spec_is_reserved_word(toks[q].kind)) {
        (None, seq![tok_err(ErrorKind::Expected(TokenKind::identifier), toks[q])], q)
    } else {
        match spec_binding_identifier(toks, q, o) {
            (None, e, r) => (None, e, r),
            (Some(id), e, r) => (Some(Expr { parens: 0,
                node: Node::MatchBindingPattern {
                    id: Box::new(id),
                    kind: spec_binding_keyword(toks, p)->Some_0,
                },
                start: toks[p].start,
                end: spec_prev_end(toks, r),
            }), e, r),
        }
    }
}

/// A rest pattern `...` at `p`, with an optional binding pattern.
pub open spec fn spec_rest_pattern(toks: Seq<Token>, p: int, o: ParserOptions) -> (Option<Expr>, Seq<ParseError>, int) {
    let q = step(toks, p);
    if spec_binding_keyword(toks, q) is Some {
        match spec_binding_pattern(toks, q, o) {
            (None, e, r) => (None, e, r),
            (Some(b), e, r) => (Some(Expr { parens: 0,
                node: Node::MatchRestPattern { binding: Some(Box::new(b)) },
                start: toks[p].start,
                end: spec_prev_end(toks, r),
            }), e, r),
        }
    } else {
        (Some(Expr { parens: 0, node: Node::MatchRestPattern { binding: None }, start: toks[p].start, end: spec_prev_end(toks, q) }), Seq::empty(), q)
    }
}

/// The member parts `.name` and `[literal]` from `q` on, applied to the
/// pattern `pat` that started at `start`.
pub open spec fn spec_member_chain(toks: Seq<Token>, q: int, pat: Expr, start: usize) -> (Option<Expr>, Seq<ParseError>, int)
    decreases toks.len() - q,
{
    if !(0 <= q < toks.len()) {
        (Some(pat), Seq::empty(), q)
    } else if toks[q].kind == TokenKind::period {
        let q1 = step(toks, q);
        if !(q < q1) {
            (Some(pat), Seq::empty(), q)
        } else if toks[q1].kind != TokenKind::identifier {
            (None, seq![tok_err(ErrorKind::Expected(TokenKind::identifier), toks[q1])], q1)
        } else {
            let pat2 = Expr { parens: 0,
                node: Node::MatchMemberPattern {
                    base: Box::new(pat),
                    property: Box::new(spec_at(toks, q1, Node::Identifier(q1 as usize))),
                },
                start,
                end: toks[q1].end,
            };
            spec_member_chain(toks, step(toks, q1), pat2, start)
        }
    } else if toks[q].kind == TokenKind::l_square {
        let q1 = step(toks, q);
        let lit = match toks[q1].kind {
            TokenKind::numeric_literal => Some(Node::NumericLiteral(q1 as usize)),
            TokenKind::bigint_literal => Some(Node::BigIntLiteral(q1 as usize)),
            TokenKind::string_literal => Some(Node::StringLiteral(q1 as usize)),
            _ => None,
        };
        if !(q < q1) {
            (Some(pat), Seq::empty(), q)
        } else if lit is None {
            (None, seq![tok_err(ErrorKind::ExpectedMatchComputedKey, toks[q1])], q1)
        } else {
            let q2 = step(toks, q1);
            if toks[q2].kind != TokenKind::r_square {
                (None, seq![tok_err(ErrorKind::Expected(TokenKind::r_square), toks[q2])], q2)
            } else {
                let pat2 = Expr { parens: 0,
                    node: Node::MatchMemberPattern {
                        base: Box::new(pat),
                        property: Box::new(spec_at(toks, q1, lit->Some_0)),
                    },
                    start,
                    end: toks[q2].end,
                };
                spec_member_chain(toks, step(toks, q2), pat2, start)
            }
        }
    } else {
        (Some(pat), Seq::empty(), q)
    }
}

/// A match pattern at `p`: an optional leading `|`, a subpattern, more
/// subpatterns after `|` making an or-pattern, and an optional
/// `as target` binding.
pub open spec fn spec_pattern(toks: Seq<Token>, p: int, o: ParserOptions) -> (Option<Expr>, Seq<ParseError>, int)
    decreases toks.len() - p, 3int,
{
    let p1 = spec_after_pipe(toks, p);
    let start = toks[p].start;
    match spec_subpattern(toks, p1, o) {
        (None, e, r) => (None, e, r),
        (Some(first), e1, r1) => if p <= r1 <= toks.len() {
            match spec_or_part(toks, r1, first, start, o) {
                (None, e2, r2) => (None, e1 + e2, r2),
                (Some(pat), e2, r2) => {
                    let (res, e3, r3) = spec_as_part(toks, r2, pat, start, o);
                    (res, e1 + e2 + e3, r3)
                },
            }
        } else {
            (Some(first), e1, r1)
        },
    }
}

/// After the first subpattern `first` of a pattern that started at
/// `start`, with `q` after it: the or-pattern of `first` and the
/// subpatterns after each `|`, or `first` itself when no `|` follows.
pub open spec fn spec_or_part(toks: Seq<Token>, q: int, first: Expr, start: usize, o: ParserOptions) -> (Option<Expr>, Seq<ParseError>, int)
    decreases toks.len() - q, 1int,
{
    if 0 <= q < toks.len() && toks[q].kind == TokenKind::pipe {
        match spec_or_tail(toks, q, o) {
            (None, e, r) => (None, e, r),
            (Some(rest), e, r) => (Some(Expr { parens: 0,
                node: Node::MatchOrPattern { patterns: NodeList::Cons(Box::new(first), Box::new(rest)) },
                start,
                end: spec_prev_end(toks, r),
            }), e, r),
        }
    } else {
        (Some(first), Seq::empty(), q)
    }
}

/// After the pattern `pat` that started at `start`, with `q` after it: the
/// `as target` binding of `pat` when `as` follows, `pat` itself otherwise.
pub open spec fn spec_as_part(toks: Seq<Token>, q: int, pat: Expr, start: usize, o: ParserOptions) -> (Option<Expr>, Seq<ParseError>, int) {
    if is_name_at(toks, q, spec_as_name()) {
        match spec_as_target(toks, step(toks, q), o) {
            (None, e, r) => (None, e, r),
            (Some(t), e, r) => (Some(Expr { parens: 0,
                node: Node::MatchAsPattern { pattern: Box::new(pat), target: Box::new(t) },
                start,
                end: spec_prev_end(toks, r),
            }), e, r),
        }
    } else {
        (Some(pat), Seq::empty(), q)
    }
}

/// The target of `as` in a match pattern at `q`: a binding pattern or a
/// name.
pub open spec fn spec_as_target(toks: Seq<Token>, q: int, o: ParserOptions) -> (Option<Expr>, Seq<ParseError>, int) {
    if spec_binding_keyword(toks, q) is Some {
        spec_binding_pattern(toks, q, o)
    } else if toks[q].kind == TokenKind::identifier || spec_is_reserved_word(toks[q].kind) {
        spec_binding_identifier(toks, q, o)
    } else {
        (None, seq![tok_err(ErrorKind::ExpectedMatchBindingTarget, toks[q])], q)
    }
}

/// The subpatterns after each `|` from `q` on.
pub open spec fn spec_or_tail(toks: Seq<Token>, q: int, o: ParserOptions) -> (Option<NodeList>, Seq<ParseError>, int)
    decreases toks.len() - q, 0int,
{
    let q1 = step(toks, q);
    if !(0 <= q < toks.len()) || toks[q].kind != TokenKind::pipe || !(q < q1) {
        (Some(NodeList::Nil), Seq::empty(), q)
    } else {
        match spec_subpattern(toks, q1, o) {
            (None, e, r) => (None, e, r),
            (Some(sp), e, r) => if q1 < r < toks.len() {
                match spec_or_tail(toks, r, o) {
                    (None, e2, s) => (None, e + e2, s),
                    (Some(rest), e2, s) => (Some(NodeList::Cons(Box::new(sp), Box::new(rest))), e + e2, s),
                }
            } else {
                (Some(NodeList::Cons(Box::new(sp), Box::new(NodeList::Nil))), e, r)
            },
        }
    }
}

/// A single subpattern at `p`: a literal, a name pattern, a signed number,
/// a binding, a parenthesized pattern, an object or an array pattern.
pub open spec fn spec_subpattern(toks: Seq<Token>, p: int, o: ParserOptions) -> (Option<Expr>, Seq<ParseError>, int)
    decreases toks.len() - p, 2int,
{
    let t = toks[p];
    if spec_match_literal(toks, p) is Some {
        (Some(spec_at(toks, p, Node::MatchLiteralPattern {
            literal: Box::new(spec_at(toks, p, spec_match_literal(toks, p)->Some_0)),
        })), Seq::empty(), step(toks, p))
    } else if t.kind == TokenKind::identifier {
        spec_ident_subpattern(toks, p, o)
    } else if t.kind == TokenKind::plus || t.kind == TokenKind::minus {
        let q = step(toks, p);
        if toks[q].kind == TokenKind::numeric_literal || toks[q].kind == TokenKind::bigint_literal {
            let lit = if toks[q].kind == TokenKind::numeric_literal {
                Node::NumericLiteral(q as usize)
            } else {
                Node::BigIntLiteral(q as usize)
            };
            (Some(Expr { parens: 0,
                node: Node::MatchUnaryPattern { operator: t.kind, argument: Box::new(spec_at(toks, q, lit)) },
                start: t.start,
                end: toks[q].end,
            }), Seq::empty(), step(toks, q))
        } else {
            (None, seq![point_err(ErrorKind::InvalidMatchUnaryArgument, toks[q])], q)
        }
    } else if t.kind == TokenKind::rw_const || t.kind == TokenKind::rw_var {
        spec_binding_pattern(toks, p, o)
    } else if t.kind == TokenKind::l_paren {
        let q = step(toks, p);
        if !(0 <= p < q) {
            (None, seq![point_err(ErrorKind::InvalidMatchPattern, t)], p)
        } else {
            match spec_pattern(toks, q, o) {
                (None, e, r) => (None, e, r),
                (Some(pt), e, r) => if toks[r].kind == TokenKind::r_paren {
                    (Some(pt), e, step(toks, r))
                } else {
                    (None, e.push(tok_err(ErrorKind::Expected(TokenKind::r_paren), toks[r])), r)
                },
            }
        }
    } else if t.kind == TokenKind::l_brace {
        spec_object_pattern(toks, p, o, false)
    } else if t.kind == TokenKind::l_square {
        spec_array_pattern(toks, p, o)
    } else {
        (None, seq![point_err(ErrorKind::InvalidMatchPattern, t)], p)
    }
}

/// The subpattern at `p` whose token is a name: `_`, a `let` binding, or a
/// name with member parts, followed by `{ properties }` for an instance
/// pattern.
pub open spec fn spec_ident_subpattern(toks: Seq<Token>, p: int, o: ParserOptions) -> (Option<Expr>, Seq<ParseError>, int)
    decreases toks.len() - p, 1int,
{
    let t = toks[p];
    if is_name_at(toks, p, spec_wildcard_name()) {
        (Some(spec_at(toks, p, Node::MatchWildcardPattern)), Seq::empty(), step(toks, p))
    } else if is_name_at(toks, p, spec_let_name()) {
        spec_binding_pattern(toks, p, o)
    } else {
        let pat0 = spec_at(toks, p, Node::MatchIdentifierPattern {
            id: Box::new(spec_at(toks, p, Node::Identifier(p as usize))),
        });
        match spec_member_chain(toks, step(toks, p), pat0, t.start) {
            (None, e, r) => (None, e, r),
            (Some(pat), e, r) => if p < r < toks.len() && toks[r].kind == TokenKind::l_brace {
                match spec_object_pattern(toks, r, o, true) {
                    (None, e2, s) => (None, e + e2, s),
                    (Some(props), e2, s) => (Some(Expr { parens: 0,
                        node: Node::MatchInstancePattern { target: Box::new(pat), object: Box::new(props) },
                        start: t.start,
                        end: spec_prev_end(toks, s),
                    }), e + e2, s),
                }
            } else {
                (Some(pat), e, r)
            },
        }
    }
}

/// An object pattern `{ properties }` at `p`, whose token is `{`; the
/// object of an instance pattern when `instance`.
pub open spec fn spec_object_pattern(toks: Seq<Token>, p: int, o: ParserOptions, instance: bool) -> (Option<Expr>, Seq<ParseError>, int)
    decreases toks.len() - p, 0int,
{
    let q = step(toks, p);
    if !(0 <= p < q) {
        (None, seq![point_err(ErrorKind::InvalidMatchPattern, toks[p])], p)
    } else {
        match spec_props_closed(toks, q, o) {
            (None, e, r) => (None, e, r),
            (Some((props, rest)), e, r) => {
                let rest_box = match rest {
                    Some(x) => Some(Box::new(x)),
                    None => None,
                };
                let node = if instance {
                    Node::MatchInstanceObjectPattern { properties: props, rest: rest_box }
                } else {
                    Node::MatchObjectPattern { properties: props, rest: rest_box }
                };
                (Some(Expr { parens: 0, node, start: toks[p].start, end: spec_prev_end(toks, r) }), e, r)
            },
        }
    }
}

/// The properties of an object pattern from `q` on and its closing `}`.
pub open spec fn spec_props_closed(toks: Seq<Token>, q: int, o: ParserOptions) -> (Option<(NodeList, Option<Expr>)>, Seq<ParseError>, int)
    decreases toks.len() - q, 2int,
{
    match spec_props(toks, q, o) {
        (None, e, r) => (None, e, r),
        (Some(x), e, r) => if toks[r].kind == TokenKind::r_brace {
            (Some(x), e, step(toks, r))
        } else {
            (None, e.push(tok_err(ErrorKind::Expected(TokenKind::r_brace), toks[r])), r)
        },
    }
}

/// One property of an object pattern at `q`: the shorthand binding
/// `const key`, or `key: pattern` where the key is a name, string, number
/// or bigint.
pub open spec fn spec_prop(toks: Seq<Token>, q: int, o: ParserOptions) -> (Option<Expr>, Seq<ParseError>, int)
    decreases toks.len() - q, 0int,
{
    if spec_binding_keyword(toks, q) is Some {
        match spec_binding_pattern(toks, q, o) {
            (None, e, r) => (None, e, r),
            (Some(bp), e, r) => {
                let key = match bp.node {
                    Node::MatchBindingPattern { id, .. } => *id,
                    _ => bp,
                };
                (Some(Expr { parens: 0,
                    node: Node::MatchObjectPatternProperty { key: Box::new(key), pattern: Box::new(bp), shorthand: true },
                    start: toks[q].start,
                    end: spec_prev_end(toks, r),
                }), e, r)
            },
        }
    } else {
        let key = match toks[q].kind {
            TokenKind::identifier => Some(Node::Identifier(q as usize)),
            TokenKind::string_literal => Some(Node::StringLiteral(q as usize)),
            TokenKind::numeric_literal => Some(Node::NumericLiteral(q as usize)),
            TokenKind::bigint_literal => Some(Node::BigIntLiteral(q as usize)),
            _ => None,
        };
        let q1 = step(toks, q);
        if key is None {
            (None, seq![tok_err(ErrorKind::ExpectedMatchPropertyKey, toks[q])], q)
        } else if toks[q1].kind != TokenKind::colon {
            (None, seq![tok_err(ErrorKind::Expected(TokenKind::colon), toks[q1])], q1)
        } else if !(0 <= q < step(toks, q1)) {
            (None, Seq::empty(), q)
        } else {
            match spec_pattern(toks, step(toks, q1), o) {
                (None, e, r) => (None, e, r),
                (Some(pt), e, r) => (Some(Expr { parens: 0,
                    node: Node::MatchObjectPatternProperty {
                        key: Box::new(spec_at(toks, q, key->Some_0)),
                        pattern: Box::new(pt),
                        shorthand: false,
                    },
                    start: toks[q].start,
                    end: spec_prev_end(toks, r),
                }), e, r),
            }
        }
    }
}

/// The properties of an object pattern from `q` on, up to the closing `}`
/// (excluded): properties separated by commas, possibly ended by a rest
/// pattern.
pub open spec fn spec_props(toks: Seq<Token>, q: int, o: ParserOptions) -> (Option<(NodeList, Option<Expr>)>, Seq<ParseError>, int)
    decreases toks.len() - q, 1int,
{
    if !(0 <= q < toks.len()) || toks[q].kind == TokenKind::r_brace {
        (Some((NodeList::Nil, None)), Seq::empty(), q)
    } else if toks[q].kind == TokenKind::dotdotdot {
        match spec_rest_pattern(toks, q, o) {
            (None, e, r) => (None, e, r),
            (Some(rest), e, r) => (Some((NodeList::Nil, Some(rest))), e, r),
        }
    } else {
        match spec_prop(toks, q, o) {
            (None, e, r) => (None, e, r),
            (Some(prop), e, r) => if q < r < toks.len() && toks[r].kind == TokenKind::comma {
                match spec_props(toks, step(toks, r), o) {
                    (None, e2, s) => (None, e + e2, s),
                    (Some((more, rest)), e2, s) => (Some((NodeList::Cons(Box::new(prop), Box::new(more)), rest)), e + e2, s),
                }
            } else {
                (Some((NodeList::Cons(Box::new(prop), Box::new(NodeList::Nil)), None)), e, r)
            },
        }
    }
}

/// An array pattern `[ elements ]` at `p`, whose token is `[`.
pub open spec fn spec_array_pattern(toks: Seq<Token>, p: int, o: ParserOptions) -> (Option<Expr>, Seq<ParseError>, int)
    decreases toks.len() - p, 1int,
{
    let q = step(toks, p);
    if !(0 <= p < q) {
        (None, seq![point_err(ErrorKind::InvalidMatchPattern, toks[p])], p)
    } else {
        match spec_elements(toks, q, o) {
            (None, e, r) => (None, e, r),
            (Some((elems, rest)), e, r) => if toks[r].kind == TokenKind::r_square {
                (Some(Expr { parens: 0,
                    node: Node::MatchArrayPattern { elements: elems, rest: match rest {
                        Some(x) => Some(Box::new(x)),
                        None => None,
                    } },
                    start: toks[p].start,
                    end: toks[r].end,
                }), e, step(toks, r))
            } else {
                (None, e.push(tok_err(ErrorKind::Expected(TokenKind::r_square), toks[r])), r)
            },
        }
    }
}

/// The elements of an array pattern from `q` on, up to the closing `]`
/// (excluded): patterns separated by commas, possibly ended by a rest
/// pattern.
pub open spec fn spec_elements(toks: Seq<Token>, q: int, o: ParserOptions) -> (Option<(NodeList, Option<Expr>)>, Seq<ParseError>, int)
    decreases toks.len() - q, 4int,
{
    if !(0 <= q < toks.len()) || toks[q].kind == TokenKind::r_square {
        (Some((NodeList::Nil, None)), Seq::empty(), q)
    } else if toks[q].kind == TokenKind::dotdotdot {
        match spec_rest_pattern(toks, q, o) {
            (None, e, r) => (None, e, r),
            (Some(rest), e, r) => (Some((NodeList::Nil, Some(rest))), e, r),
        }
    } else {
        match spec_pattern(toks, q, o) {
            (None, e, r) => (None, e, r),
            (Some(pt), e, r) => if q < r < toks.len() && toks[r].kind == TokenKind::comma {
                match spec_elements(toks, step(toks, r), o) {
                    (None, e2, s) => (None, e + e2, s),
                    (Some((more, rest)), e2, s) => (Some((NodeList::Cons(Box::new(pt), Box::new(more)), rest)), e + e2, s),
                }
            } else {
                (Some((NodeList::Cons(Box::new(pt), Box::new(NodeList::Nil)), None)), e, r)
            },
        }
    }
}

/// The diagnostics for the spread elements among the arguments `args` of
/// a `match`, one over each, in order.
pub open spec fn spec_spread_errors(args: Seq<Expr>) -> Seq<ParseError>
    decreases args.len(),
{
    if args.len() == 0 {
        Seq::empty()
    } else {
        let a = args.last();
        spec_spread_errors(args.drop_last()) + match a.node {
            Node::SpreadElement { .. } => seq![ParseError { kind: ErrorKind::MatchArgumentSpread, start: a.start, end: a.end }],
            _ => Seq::empty(),
        }
    }
}

/// The argument of a `match` made of the arguments `args` written over
/// `[start, end)`: the one argument, or the sequence of them. Gives it and
/// the diagnostics: for an empty list, and for each spread element.
pub open spec fn spec_match_argument(start: usize, end: usize, args: Seq<Expr>) -> (Expr, Seq<ParseError>) {
    let e0 = if args.len() == 0 {
        seq![ParseError { kind: ErrorKind::MatchArgumentEmpty, start, end }]
    } else {
        Seq::empty()
    };
    let arg = if args.len() == 1 {
        args[0]
    } else {
        Expr { parens: 0, node: Node::SequenceExpression { expressions: spec_list_of(args) }, start, end }
    };
    (arg, e0 + spec_spread_errors(args))
}

impl JSParserImpl {
    /// Whether the cursor may be at the start of a Flow match expression or
    /// statement: the identifier `match` followed, on the same line, by `(`.
    pub fn check_maybe_flow_match(&mut self) -> (r: bool)
        ensures
            r == (old(self).lexer@.is_name(spec_match_name()) && old(self).lexer@.lookahead1()
                == Some(TokenKind::l_paren)),
            final(self).lexer@ == old(self).lexer@,
            final(self).options == old(self).options,
            final(self).errors@ == old(self).errors@,
    {
        let name: [u8; 5] = [109u8, 97u8, 116u8, 99u8, 104u8];
        assert(name@ =~= spec_match_name());
        if !self.check_name(name.as_slice()) {
            return false;
        }
        self.lexer.lookahead1() == Some(TokenKind::l_paren)
    }
}

/// Where a leading `|` of a pattern at `p` leaves the parser.
pub open spec fn spec_after_pipe(toks: Seq<Token>, p: int) -> int {
    if 0 <= p < toks.len() && toks[p].kind == TokenKind::pipe && p < step(toks, p) {
        step(toks, p)
    } else {
        p
    }
}

/// A pattern whose first subpattern fails fails with it.
proof fn lemma_pattern_stops_at_subpattern(toks: Seq<Token>, p: int, o: ParserOptions, p1: int)
    requires
        p1 == spec_after_pipe(toks, p),
        spec_subpattern(toks, p1, o).0 is None,
    ensures
        spec_pattern(toks, p, o) == spec_subpattern(toks, p1, o),
{
}

/// A pattern whose or-part fails fails with it.
proof fn lemma_pattern_stops_at_or_part(toks: Seq<Token>, p: int, o: ParserOptions, p1: int)
    requires
        p1 == spec_after_pipe(toks, p),
        spec_subpattern(toks, p1, o).0 is Some,
        p <= spec_subpattern(toks, p1, o).2 <= toks.len(),
        spec_or_part(
            toks,
            spec_subpattern(toks, p1, o).2,
            spec_subpattern(toks, p1, o).0->Some_0,
            toks[p].start,
            o,
        ).0 is None,
    ensures
        ({
            let sub = spec_subpattern(toks, p1, o);
            let orp = spec_or_part(toks, sub.2, sub.0->Some_0, toks[p].start, o);
            spec_pattern(toks, p, o) == (None::<Expr>, sub.1 + orp.1, orp.2)
        }),
{
}

/// A pattern whose first subpattern and or-part parse ends with its
/// `as` part.
proof fn lemma_pattern_ends_with_as_part(toks: Seq<Token>, p: int, o: ParserOptions, p1: int)
    requires
        p1 == spec_after_pipe(toks, p),
        spec_subpattern(toks, p1, o).0 is Some,
        p <= spec_subpattern(toks, p1, o).2 <= toks.len(),
        spec_or_part(
            toks,
            spec_subpattern(toks, p1, o).2,
            spec_subpattern(toks, p1, o).0->Some_0,
            toks[p].start,
            o,
        ).0 is Some,
    ensures
        ({
            let sub = spec_subpattern(toks, p1, o);
            let orp = spec_or_part(toks, sub.2, sub.0->Some_0, toks[p].start, o);
            let asp = spec_as_part(toks, orp.2, orp.0->Some_0, toks[p].start, o);
            spec_pattern(toks, p, o) == (asp.0, sub.1 + orp.1 + asp.1, asp.2)
        }),
{
}


impl JSParserImpl {
    /// A `null` literal node at the current token.
    pub fn make_match_null_literal(&self) -> (r: Expr)
        ensures
            r == spec_at(self.lexer@.tokens, self.lexer@.pos, Node::NullLiteral),
    {
        let (start, end) = self.lexer.cur_range();
        Expr { parens: 0, node: Node::NullLiteral, start, end }
    }

    /// A numeric literal node for the current token.
    pub fn make_match_numeric_literal(&self) -> (r: Expr)
        ensures
            r == spec_at(self.lexer@.tokens, self.lexer@.pos, Node::NumericLiteral(self.lexer@.pos as usize)),
    {
        let (start, end) = self.lexer.cur_range();
        Expr { parens: 0, node: Node::NumericLiteral(self.lexer.cur_index()), start, end }
    }

    /// A bigint literal node for the current token.
    pub fn make_match_bigint_literal(&self) -> (r: Expr)
        ensures
            r == spec_at(self.lexer@.tokens, self.lexer@.pos, Node::BigIntLiteral(self.lexer@.pos as usize)),
    {
        let (start, end) = self.lexer.cur_range();
        Expr { parens: 0, node: Node::BigIntLiteral(self.lexer.cur_index()), start, end }
    }

    /// A string literal node for the current token.
    pub fn make_match_string_literal(&self) -> (r: Expr)
        ensures
            r == spec_at(self.lexer@.tokens, self.lexer@.pos, Node::StringLiteral(self.lexer@.pos as usize)),
    {
        let (start, end) = self.lexer.cur_range();
        Expr { parens: 0, node: Node::StringLiteral(self.lexer.cur_index()), start, end }
    }

    /// An identifier node for the current token.
    pub fn make_match_current_identifier(&self) -> (r: Expr)
        ensures
            r == spec_at(self.lexer@.tokens, self.lexer@.pos, Node::Identifier(self.lexer@.pos as usize)),
    {
        let (start, end) = self.lexer.cur_range();
        Expr { parens: 0, node: Node::Identifier(self.lexer.cur_index()), start, end }
    }

    /// A literal pattern of `literal`, spanning the current token.
    pub fn wrap_match_literal_pattern(&self, literal: Expr) -> (r: Expr)
        ensures
            r == spec_at(self.lexer@.tokens, self.lexer@.pos, Node::MatchLiteralPattern { literal: Box::new(literal) }),
    {
        let (start, end) = self.lexer.cur_range();
        Expr { parens: 0, node: Node::MatchLiteralPattern { literal: Box::new(literal) }, start, end }
    }

    /// Check a name `name`, of a token of kind `kind` covering
    /// `[start, end)`, used as a binding: report `yield` in strict code or a
    /// generator, `await` in an async function and `let` in strict code.
    /// Returns whether the token may be a binding name at all (an
    /// identifier or `yield`).
    pub fn validate_binding_identifier(&mut self, start: usize, end: usize, name: &[u8], kind: TokenKind) -> (r: bool)
        ensures
            ({
                let (errs, ok) = spec_binding_checks(name@, kind, old(self).options, start, end);
                &&& r == ok
                &&& final(self).errors@ == old(self).errors@ + errs
                &&& final(self).lexer@ == old(self).lexer@
                &&& final(self).options == old(self).options
            }),
    {
        let yield_name: [u8; 5] = [121u8, 105u8, 101u8, 108u8, 100u8];
        let await_name: [u8; 5] = [97u8, 119u8, 97u8, 105u8, 116u8];
        let let_name: [u8; 3] = [108u8, 101u8, 116u8];
        assert(yield_name@ =~= spec_yield_name());
        assert(await_name@ =~= spec_await_name());
        assert(let_name@ =~= spec_let_name());
        let ghost e0 = self.errors@;
        if bytes_eq(name, yield_name.as_slice()) && (self.options.strict_mode || self.options.param_yield) {
            self.error_at(ErrorKind::YieldAsIdentifier, start, end);
        }
        let ghost e1 = self.errors@;
        if bytes_eq(name, await_name.as_slice()) && self.options.param_await {
            self.error_at(ErrorKind::AwaitAsIdentifier, start, end);
        }
        let ghost e2 = self.errors@;
        if bytes_eq(name, let_name.as_slice()) && self.options.strict_mode {
            self.error_at(ErrorKind::StrictReservedBinding, start, end);
        }
        proof {
            let (errs, _) = spec_binding_checks(name@, kind, old(self).options, start, end);
            assert(self.errors@ =~= e0 + errs);
        }
        kind == TokenKind::identifier || kind == TokenKind::rw_yield
    }

    /// Parse a binding name in a match pattern. The name's node is located
    /// at the token that follows it.
    pub fn parse_match_binding_identifier_flow(&mut self) -> (r: Option<Expr>)
        requires
            old(self).lexer@.is_fresh(),
        ensures
            ({
                let (res, errs, q) = spec_binding_identifier(old(self).lexer@.tokens, old(self).lexer@.pos, old(self).options);
                &&& r == res
                &&& final(self).errors@ == old(self).errors@ + errs
                &&& final(self).lexer@ == old(self).lexer@.at(q)
                &&& final(self).options == old(self).options
            }),
            r is Some ==> final(self).lexer@.pos > old(self).lexer@.pos,
    {
        proof { use_type_invariant(&self.lexer); }
        assert(old(self).lexer@.at(old(self).lexer@.pos) == old(self).lexer@);
        let idx = self.lexer.cur_index();
        let kind = self.cur_kind();
        let (start, end) = self.lexer.cur_range();
        let name: Vec<u8> = if kind == TokenKind::identifier {
            let v = self.lexer.token().value.clone();
            assert(v@ =~= self.lexer@.cur().value@);
            v
        } else if kind == TokenKind::rw_yield {
            let v: Vec<u8> = vec![121u8, 105u8, 101u8, 108u8, 100u8];
            assert(v@ =~= spec_yield_name());
            v
        } else {
            Vec::new()
        };
        assert(name@ =~= spec_binding_name(self.lexer@.cur()));
        if !self.validate_binding_identifier(start, end, name.as_slice(), kind) {
            return None;
        }
        self.advance();
        let (s2, e2) = self.lexer.cur_range();
        Some(Expr { parens: 0, node: Node::Identifier(idx), start: s2, end: e2 })
    }

    /// Parse a binding pattern `const x`, `var x` or `let x`, with the
    /// current token at the keyword.
    pub fn parse_match_binding_pattern_flow(&mut self) -> (r: Option<Expr>)
        requires
            old(self).lexer@.is_fresh(),
            spec_binding_keyword(old(self).lexer@.tokens, old(self).lexer@.pos) is Some,
        ensures
            ({
                let (res, errs, q) = spec_binding_pattern(old(self).lexer@.tokens, old(self).lexer@.pos, old(self).options);
                &&& r == res
                &&& final(self).errors@ == old(self).errors@ + errs
                &&& final(self).lexer@ == old(self).lexer@.at(q)
                &&& final(self).options == old(self).options
            }),
            r is Some ==> final(self).lexer@.pos > old(self).lexer@.pos,
    {
        proof { use_type_invariant(&self.lexer); }
        let kind = if self.check(TokenKind::rw_const) {
            BindingKind::Const
        } else if self.check(TokenKind::rw_var) {
            BindingKind::Var
        } else {
            BindingKind::Let
        };
        let (start, _) = self.advance();
        proof { use_type_invariant(&self.lexer); }
        if !self.check(TokenKind::identifier) && !is_reserved_word(self.cur_kind()) {
            self.error_cur(ErrorKind::Expected(TokenKind::identifier));
            assert(self.lexer@ == old(self).lexer@.at(self.lexer@.pos));
            assert(self.errors@ =~= old(self).errors@ + seq![tok_err(ErrorKind::Expected(TokenKind::identifier), self.lexer@.cur())]);
            return None;
        }
        let id = match self.parse_match_binding_identifier_flow() {
            Some(id) => id,
            None => return None,
        };
        let end = self.lexer.prev_token_end();
        Some(Expr { parens: 0, node: Node::MatchBindingPattern { id: Box::new(id), kind }, start, end })
    }

    /// Parse a rest pattern `...`, optionally followed by a binding pattern,
    /// with the current token at `...`.
    pub fn parse_match_rest_pattern_flow(&mut self) -> (r: Option<Expr>)
        requires
            old(self).lexer@.is_fresh(),
            old(self).lexer@.kind == TokenKind::dotdotdot,
        ensures
            ({
                let (res, errs, q) = spec_rest_pattern(old(self).lexer@.tokens, old(self).lexer@.pos, old(self).options);
                &&& r == res
                &&& final(self).errors@ == old(self).errors@ + errs
                &&& final(self).lexer@ == old(self).lexer@.at(q)
                &&& final(self).options == old(self).options
            }),
            r is Some ==> final(self).lexer@.pos > old(self).lexer@.pos,
    {
        proof { use_type_invariant(&self.lexer); }
        let (start, _) = self.advance();
        proof { use_type_invariant(&self.lexer); }
        let let_name: [u8; 3] = [108u8, 101u8, 116u8];
        assert(let_name@ =~= spec_let_name());
        if self.check(TokenKind::rw_const) || self.check(TokenKind::rw_var) || self.check_name(let_name.as_slice()) {
            let b = match self.parse_match_binding_pattern_flow() {
                Some(b) => b,
                None => return None,
            };
            let end = self.lexer.prev_token_end();
            return Some(Expr { parens: 0, node: Node::MatchRestPattern { binding: Some(Box::new(b)) }, start, end });
        }
        let end = self.lexer.prev_token_end();
        assert(self.errors@ =~= old(self).errors@ + Seq::<ParseError>::empty());
        Some(Expr { parens: 0, node: Node::MatchRestPattern { binding: None }, start, end })
    }
}

impl JSParserImpl {
    /// Parse a match pattern: an optional leading `|`, a subpattern, more
    /// subpatterns after `|` making an or-pattern, and an optional
    /// `as target` binding, where the target is a binding pattern or a name.
    #[verifier::rlimit(100)]
    #[verifier::spinoff_prover]
    pub fn parse_match_pattern_flow(&mut self) -> (r: Option<Expr>)
        requires
            old(self).lexer@.is_fresh(),
        ensures
            ({
                let (res, errs, q) = spec_pattern(old(self).lexer@.tokens, old(self).lexer@.pos, old(self).options);
                &&& r == res
                &&& final(self).errors@ == old(self).errors@ + errs
                &&& final(self).lexer@ == old(self).lexer@.at(q)
                &&& final(self).options == old(self).options
            }),
            r is Some ==> final(self).lexer@.pos > old(self).lexer@.pos,
        decreases old(self).lexer@.tokens.len() - old(self).lexer@.pos, 3int,
    {
        proof { use_type_invariant(&self.lexer); }
        let ghost toks = old(self).lexer@.tokens;
        let ghost p = old(self).lexer@.pos;
        let ghost o = old(self).options;
        let (start, _) = self.lexer.cur_range();
        self.check_and_eat(TokenKind::pipe);
        let ghost p1 = self.lexer@.pos;
        let ghost e0 = self.errors@;
        let ghost sub = spec_subpattern(toks, p1, o);
        let first = match self.parse_match_subpattern_flow() {
            Some(x) => x,
            None => {
                proof { lemma_pattern_stops_at_subpattern(toks, p, o, p1); }
                return None;
            },
        };
        proof { use_type_invariant(&self.lexer); }
        let ghost e1 = self.errors@;
        let ghost orp = spec_or_part(toks, sub.2, first, start, o);
        let pat = match self.parse_match_or_part(first, start) {
            Some(x) => x,
            None => {
                proof {
                    lemma_pattern_stops_at_or_part(toks, p, o, p1);
                    assert(self.errors@ =~= e0 + (sub.1 + orp.1));
                }
                return None;
            },
        };
        let ghost e2 = self.errors@;
        let ghost asp = spec_as_part(toks, orp.2, pat, start, o);
        let r = self.parse_match_as_part(pat, start);
        proof {
            lemma_pattern_ends_with_as_part(toks, p, o, p1);
            assert(self.errors@ =~= e0 + (sub.1 + orp.1 + asp.1));
        }
        r
    }

    /// After the first subpattern `first` of a pattern that started at
    /// `start`: the or-pattern of `first` and the subpatterns after each
    /// `|`, or `first` itself when no `|` follows.
    #[verifier::rlimit(100)]
    #[verifier::spinoff_prover]
    fn parse_match_or_part(&mut self, first: Expr, start: usize) -> (r: Option<Expr>)
        requires
            old(self).lexer@.is_fresh(),
        ensures
            ({
                let (res, errs, q) = spec_or_part(old(self).lexer@.tokens, old(self).lexer@.pos, first, start, old(self).options);
                &&& r == res
                &&& final(self).errors@ == old(self).errors@ + errs
                &&& final(self).lexer@ == old(self).lexer@.at(q)
                &&& final(self).options == old(self).options
            }),
            r is Some ==> final(self).lexer@.pos >= old(self).lexer@.pos,
        decreases old(self).lexer@.tokens.len() - old(self).lexer@.pos, 1int,
    {
        proof { use_type_invariant(&self.lexer); }
        assert(old(self).lexer@.at(old(self).lexer@.pos) == old(self).lexer@);
        if self.check(TokenKind::pipe) {
            let rest = match self.parse_match_or_tail() {
                Some(l) => l,
                None => return None,
            };
            let end = self.lexer.prev_token_end();
            return Some(Expr { parens: 0, node: Node::MatchOrPattern { patterns: NodeList::Cons(Box::new(first), Box::new(rest)) }, start, end });
        }
        assert(self.errors@ =~= old(self).errors@ + Seq::<ParseError>::empty());
        Some(first)
    }

    /// After the pattern `pat` that started at `start`: the `as target`
    /// binding of `pat` when `as` follows, `pat` itself otherwise.
    fn parse_match_as_part(&mut self, pat: Expr, start: usize) -> (r: Option<Expr>)
        requires
            old(self).lexer@.is_fresh(),
        ensures
            ({
                let (res, errs, q) = spec_as_part(old(self).lexer@.tokens, old(self).lexer@.pos, pat, start, old(self).options);
                &&& r == res
                &&& final(self).errors@ == old(self).errors@ + errs
                &&& final(self).lexer@ == old(self).lexer@.at(q)
                &&& final(self).options == old(self).options
            }),
            r is Some ==> final(self).lexer@.pos >= old(self).lexer@.pos,
    {
        proof { use_type_invariant(&self.lexer); }
        assert(old(self).lexer@.at(old(self).lexer@.pos) == old(self).lexer@);
        let as_name: [u8; 2] = [97u8, 115u8];
        assert(as_name@ =~= spec_as_name());
        if self.check_name(as_name.as_slice()) {
            self.advance();
            let t = match self.parse_match_as_target() {
                Some(t) => t,
                None => return None,
            };
            let end = self.lexer.prev_token_end();
            return Some(Expr { parens: 0, node: Node::MatchAsPattern { pattern: Box::new(pat), target: Box::new(t) }, start, end });
        }
        assert(self.errors@ =~= old(self).errors@ + Seq::<ParseError>::empty());
        Some(pat)
    }

    /// Parse the target of `as` in a match pattern: a binding pattern or a
    /// name.
    fn parse_match_as_target(&mut self) -> (r: Option<Expr>)
        requires
            old(self).lexer@.is_fresh(),
        ensures
            ({
                let (res, errs, q) = spec_as_target(old(self).lexer@.tokens, old(self).lexer@.pos, old(self).options);
                &&& r == res
                &&& final(self).errors@ == old(self).errors@ + errs
                &&& final(self).lexer@ == old(self).lexer@.at(q)
                &&& final(self).options == old(self).options
            }),
            r is Some ==> final(self).lexer@.pos > old(self).lexer@.pos,
    {
        proof { use_type_invariant(&self.lexer); }
        assert(old(self).lexer@.at(old(self).lexer@.pos) == old(self).lexer@);
        let let_name: [u8; 3] = [108u8, 101u8, 116u8];
        assert(let_name@ =~= spec_let_name());
        if self.check(TokenKind::rw_const) || self.check(TokenKind::rw_var) || self.check_name(let_name.as_slice()) {
            self.parse_match_binding_pattern_flow()
        } else if self.check(TokenKind::identifier) || is_reserved_word(self.cur_kind()) {
            self.parse_match_binding_identifier_flow()
        } else {
            self.error_cur(ErrorKind::ExpectedMatchBindingTarget);
            assert(self.errors@ =~= old(self).errors@ + seq![tok_err(ErrorKind::ExpectedMatchBindingTarget, old(self).lexer@.cur())]);
            None
        }
    }

    /// Parse the subpatterns after each `|`, with the current token at the
    /// first `|`.
    #[verifier::rlimit(100)]
    #[verifier::spinoff_prover]
    fn parse_match_or_tail(&mut self) -> (r: Option<NodeList>)
        requires
            old(self).lexer@.is_fresh(),
        ensures
            ({
                let (res, errs, q) = spec_or_tail(old(self).lexer@.tokens, old(self).lexer@.pos, old(self).options);
                &&& r == res
                &&& final(self).errors@ == old(self).errors@ + errs
                &&& final(self).lexer@ == old(self).lexer@.at(q)
                &&& final(self).options == old(self).options
            }),
            r is Some ==> final(self).lexer@.pos >= old(self).lexer@.pos,
        decreases old(self).lexer@.tokens.len() - old(self).lexer@.pos, 0int,
    {
        proof { use_type_invariant(&self.lexer); }
        assert(old(self).lexer@.at(old(self).lexer@.pos) == old(self).lexer@);
        if !self.check(TokenKind::pipe) {
            assert(self.errors@ =~= old(self).errors@ + Seq::<ParseError>::empty());
            return Some(NodeList::Nil);
        }
        self.advance();
        let ghost e1 = self.errors@;
        let sp = match self.parse_match_subpattern_flow() {
            Some(x) => x,
            None => return None,
        };
        proof { use_type_invariant(&self.lexer); }
        let ghost e2 = self.errors@;
        let rest = match self.parse_match_or_tail() {
            Some(l) => l,
            None => {
                assert(self.errors@ =~= old(self).errors@ + (e2.skip(e1.len() as int) + self.errors@.skip(e2.len() as int)));
                return None;
            },
        };
        assert(self.errors@ =~= old(self).errors@ + (e2.skip(e1.len() as int) + self.errors@.skip(e2.len() as int)));
        Some(NodeList::Cons(Box::new(sp), Box::new(rest)))
    }

    /// Parse a single match subpattern: a literal, a name pattern, a signed
    /// number or bigint, a binding, a parenthesized pattern, an object or
    /// an array pattern. Any other token is reported as an invalid pattern.
    #[verifier::rlimit(100)]
    #[verifier::spinoff_prover]
    pub fn parse_match_subpattern_flow(&mut self) -> (r: Option<Expr>)
        requires
            old(self).lexer@.is_fresh(),
        ensures
            ({
                let (res, errs, q) = spec_subpattern(old(self).lexer@.tokens, old(self).lexer@.pos, old(self).options);
                &&& r == res
                &&& final(self).errors@ == old(self).errors@ + errs
                &&& final(self).lexer@ == old(self).lexer@.at(q)
                &&& final(self).options == old(self).options
            }),
            r is Some ==> final(self).lexer@.pos > old(self).lexer@.pos,
        decreases old(self).lexer@.tokens.len() - old(self).lexer@.pos, 2int,
    {
        proof { use_type_invariant(&self.lexer); }
        assert(old(self).lexer@.at(old(self).lexer@.pos) == old(self).lexer@);
        let kind = self.cur_kind();
        let lit = match kind {
            TokenKind::rw_null => Some(self.make_match_null_literal()),
            TokenKind::rw_true | TokenKind::rw_false => {
                let (start, end) = self.lexer.cur_range();
                Some(Expr { parens: 0, node: Node::BooleanLiteral(kind == TokenKind::rw_true), start, end })
            },
            TokenKind::numeric_literal => Some(self.make_match_numeric_literal()),
            TokenKind::bigint_literal => Some(self.make_match_bigint_literal()),
            TokenKind::string_literal => Some(self.make_match_string_literal()),
            _ => None,
        };
        if let Some(l) = lit {
            let pat = self.wrap_match_literal_pattern(l);
            self.advance();
            assert(self.errors@ =~= old(self).errors@ + Seq::<ParseError>::empty());
            return Some(pat);
        }
        match kind {
            TokenKind::identifier => self.parse_match_identifier_subpattern_flow(),
            TokenKind::plus | TokenKind::minus => {
                let (start, _) = self.advance();
                proof { use_type_invariant(&self.lexer); }
                let arg = if self.check(TokenKind::numeric_literal) {
                    self.make_match_numeric_literal()
                } else if self.check(TokenKind::bigint_literal) {
                    self.make_match_bigint_literal()
                } else {
                    let (s, _) = self.lexer.cur_range();
                    self.error_at(ErrorKind::InvalidMatchUnaryArgument, s, s);
                    assert(self.lexer@ == self.lexer@.at(self.lexer@.pos));
                    assert(self.errors@ =~= old(self).errors@ + seq![point_err(ErrorKind::InvalidMatchUnaryArgument, self.lexer@.cur())]);
                    return None;
                };
                let (_, end) = self.advance();
                assert(self.errors@ =~= old(self).errors@ + Seq::<ParseError>::empty());
                Some(Expr { parens: 0, node: Node::MatchUnaryPattern { operator: kind, argument: Box::new(arg) }, start, end })
            },
            TokenKind::rw_const | TokenKind::rw_var => self.parse_match_binding_pattern_flow(),
            TokenKind::l_paren => {
                self.advance();
                let pattern = match self.parse_match_pattern_flow() {
                    Some(x) => x,
                    None => return None,
                };
                proof { use_type_invariant(&self.lexer); }
                let ghost e1 = self.errors@;
                if !self.need(TokenKind::r_paren) {
                    assert(self.errors@ =~= old(self).errors@ + e1.skip(old(self).errors@.len() as int).push(tok_err(ErrorKind::Expected(TokenKind::r_paren), self.lexer@.cur())));
                    return None;
                }
                self.advance();
                Some(pattern)
            },
            TokenKind::l_brace => self.parse_match_object_pattern_flow(),
            TokenKind::l_square => self.parse_match_array_pattern_flow(),
            _ => {
                let (s, _) = self.lexer.cur_range();
                self.error_at(ErrorKind::InvalidMatchPattern, s, s);
                assert(self.errors@ =~= old(self).errors@ + seq![point_err(ErrorKind::InvalidMatchPattern, old(self).lexer@.cur())]);
                None
            },
        }
    }

    /// Parse the subpattern whose current token is a name: the wildcard
    /// `_`, a `let` binding, or a name followed by `.name` and `[literal]`
    /// member parts and, for an instance pattern, `{ properties }`.
    #[verifier::rlimit(100)]
    #[verifier::spinoff_prover]
    pub fn parse_match_identifier_subpattern_flow(&mut self) -> (r: Option<Expr>)
        requires
            old(self).lexer@.is_fresh(),
            old(self).lexer@.kind == TokenKind::identifier,
        ensures
            ({
                let (res, errs, q) = spec_ident_subpattern(old(self).lexer@.tokens, old(self).lexer@.pos, old(self).options);
                &&& r == res
                &&& final(self).errors@ == old(self).errors@ + errs
                &&& final(self).lexer@ == old(self).lexer@.at(q)
                &&& final(self).options == old(self).options
            }),
            r is Some ==> final(self).lexer@.pos > old(self).lexer@.pos,
        decreases old(self).lexer@.tokens.len() - old(self).lexer@.pos, 1int,
    {
        proof { use_type_invariant(&self.lexer); }
        let ghost toks = old(self).lexer@.tokens;
        let ghost p = old(self).lexer@.pos;
        let wildcard: [u8; 1] = [95u8];
        let let_name: [u8; 3] = [108u8, 101u8, 116u8];
        assert(wildcard@ =~= spec_wildcard_name());
        assert(let_name@ =~= spec_let_name());
        if self.check_name(wildcard.as_slice()) {
            let (start, end) = self.advance();
            assert(self.errors@ =~= old(self).errors@ + Seq::<ParseError>::empty());
            return Some(Expr { parens: 0, node: Node::MatchWildcardPattern, start, end });
        }
        if self.check_name(let_name.as_slice()) {
            return self.parse_match_binding_pattern_flow();
        }
        let ident = self.make_match_current_identifier();
        let (start, id_end) = self.advance();
        let ghost pat0 = Expr { parens: 0, node: Node::MatchIdentifierPattern { id: Box::new(ident) }, start, end: id_end };
        let mut pat = Expr { parens: 0, node: Node::MatchIdentifierPattern { id: Box::new(ident) }, start, end: id_end };
        while self.check2(TokenKind::period, TokenKind::l_square)
            invariant
                self.lexer@.wf(),
                self.lexer@.is_fresh(),
                self.lexer@.tokens == toks,
                toks == old(self).lexer@.tokens,
                p == old(self).lexer@.pos,
                p < self.lexer@.pos,
                toks[p].kind == TokenKind::identifier,
                !is_name_at(toks, p, spec_wildcard_name()),
                !is_name_at(toks, p, spec_let_name()),
                start == toks[p].start,
                pat0 == spec_at(toks, p, Node::MatchIdentifierPattern { id: Box::new(spec_at(toks, p, Node::Identifier(p as usize))) }),
                self.options == old(self).options,
                self.errors@ == old(self).errors@,
                spec_member_chain(toks, self.lexer@.pos, pat, start) == spec_member_chain(toks, step(toks, p), pat0, start),
            decreases toks.len() - self.lexer@.pos,
        {
            proof { use_type_invariant(&self.lexer); }
            let ghost q = self.lexer@.pos;
            assert(q < toks.len() - 1);
            if self.check_and_eat(TokenKind::period) {
                proof { use_type_invariant(&self.lexer); }
                if !self.need(TokenKind::identifier) {
                    assert(self.errors@ =~= old(self).errors@ + seq![tok_err(ErrorKind::Expected(TokenKind::identifier), toks[q + 1])]);
                    return None;
                }
                let property = self.make_match_current_identifier();
                let (_, prop_end) = self.advance();
                pat = Expr { parens: 0, node: Node::MatchMemberPattern { base: Box::new(pat), property: Box::new(property) }, start, end: prop_end };
            } else {
                self.advance();
                proof { use_type_invariant(&self.lexer); }
                let property = if self.check(TokenKind::numeric_literal) {
                    self.make_match_numeric_literal()
                } else if self.check(TokenKind::bigint_literal) {
                    self.make_match_bigint_literal()
                } else if self.check(TokenKind::string_literal) {
                    self.make_match_string_literal()
                } else {
                    self.error_cur(ErrorKind::ExpectedMatchComputedKey);
                    assert(self.errors@ =~= old(self).errors@ + seq![tok_err(ErrorKind::ExpectedMatchComputedKey, toks[q + 1])]);
                    return None;
                };
                self.advance();
                proof { use_type_invariant(&self.lexer); }
                let (_, close_end) = self.lexer.cur_range();
                if !self.need(TokenKind::r_square) {
                    assert(self.errors@ =~= old(self).errors@ + seq![tok_err(ErrorKind::Expected(TokenKind::r_square), toks[q + 2])]);
                    return None;
                }
                self.advance();
                pat = Expr { parens: 0, node: Node::MatchMemberPattern { base: Box::new(pat), property: Box::new(property) }, start, end: close_end };
            }
        }
        proof { use_type_invariant(&self.lexer); }
        if self.check(TokenKind::l_brace) {
            let props = match self.parse_match_instance_object_pattern_flow() {
                Some(x) => x,
                None => return None,
            };
            let end = self.lexer.prev_token_end();
            return Some(Expr { parens: 0, node: Node::MatchInstancePattern { target: Box::new(pat), object: Box::new(props) }, start, end });
        }
        assert(self.errors@ =~= old(self).errors@ + Seq::<ParseError>::empty());
        Some(pat)
    }

    /// Parse a match object pattern `{ properties }`, with the current token
    /// at `{`.
    pub fn parse_match_object_pattern_flow(&mut self) -> (r: Option<Expr>)
        requires
            old(self).lexer@.is_fresh(),
            old(self).lexer@.kind == TokenKind::l_brace,
        ensures
            ({
                let (res, errs, q) = spec_object_pattern(old(self).lexer@.tokens, old(self).lexer@.pos, old(self).options, false);
                &&& r == res
                &&& final(self).errors@ == old(self).errors@ + errs
                &&& final(self).lexer@ == old(self).lexer@.at(q)
                &&& final(self).options == old(self).options
            }),
            r is Some ==> final(self).lexer@.pos > old(self).lexer@.pos,
        decreases old(self).lexer@.tokens.len() - old(self).lexer@.pos, 0int,
    {
        proof { use_type_invariant(&self.lexer); }
        let (start, _) = self.advance();
        let (properties, rest) = match self.parse_match_object_pattern_properties_flow() {
            Some(x) => x,
            None => return None,
        };
        let end = self.lexer.prev_token_end();
        Some(Expr { parens: 0, node: Node::MatchObjectPattern { properties, rest: boxed(rest) }, start, end })
    }

    /// Parse the `{ properties }` of an instance match pattern, with the
    /// current token at `{`.
    pub fn parse_match_instance_object_pattern_flow(&mut self) -> (r: Option<Expr>)
        requires
            old(self).lexer@.is_fresh(),
            old(self).lexer@.kind == TokenKind::l_brace,
        ensures
            ({
                let (res, errs, q) = spec_object_pattern(old(self).lexer@.tokens, old(self).lexer@.pos, old(self).options, true);
                &&& r == res
                &&& final(self).errors@ == old(self).errors@ + errs
                &&& final(self).lexer@ == old(self).lexer@.at(q)
                &&& final(self).options == old(self).options
            }),
            r is Some ==> final(self).lexer@.pos > old(self).lexer@.pos,
        decreases old(self).lexer@.tokens.len() - old(self).lexer@.pos, 0int,
    {
        proof { use_type_invariant(&self.lexer); }
        let (start, _) = self.advance();
        let (properties, rest) = match self.parse_match_object_pattern_properties_flow() {
            Some(x) => x,
            None => return None,
        };
        let end = self.lexer.prev_token_end();
        Some(Expr { parens: 0, node: Node::MatchInstanceObjectPattern { properties, rest: boxed(rest) }, start, end })
    }

    /// Parse the properties of a match object pattern and its closing `}`:
    /// properties separated by commas, possibly ended by a rest pattern.
    pub fn parse_match_object_pattern_properties_flow(&mut self) -> (r: Option<(NodeList, Option<Expr>)>)
        requires
            old(self).lexer@.is_fresh(),
        ensures
            ({
                let (res, errs, q) = spec_props_closed(old(self).lexer@.tokens, old(self).lexer@.pos, old(self).options);
                &&& r == res
                &&& final(self).errors@ == old(self).errors@ + errs
                &&& final(self).lexer@ == old(self).lexer@.at(q)
                &&& final(self).options == old(self).options
            }),
            r is Some ==> final(self).lexer@.pos >= old(self).lexer@.pos,
        decreases old(self).lexer@.tokens.len() - old(self).lexer@.pos, 2int,
    {
        let x = match self.parse_match_props() {
            Some(x) => x,
            None => return None,
        };
        proof { use_type_invariant(&self.lexer); }
        let ghost e1 = self.errors@;
        if !self.need(TokenKind::r_brace) {
            assert(self.errors@ =~= old(self).errors@ + e1.skip(old(self).errors@.len() as int).push(tok_err(ErrorKind::Expected(TokenKind::r_brace), self.lexer@.cur())));
            return None;
        }
        self.advance();
        Some(x)
    }

    /// Parse the properties of a match object pattern up to its closing `}`.
    #[verifier::rlimit(100)]
    #[verifier::spinoff_prover]
    fn parse_match_props(&mut self) -> (r: Option<(NodeList, Option<Expr>)>)
        requires
            old(self).lexer@.is_fresh(),
        ensures
            ({
                let (res, errs, q) = spec_props(old(self).lexer@.tokens, old(self).lexer@.pos, old(self).options);
                &&& r == res
                &&& final(self).errors@ == old(self).errors@ + errs
                &&& final(self).lexer@ == old(self).lexer@.at(q)
                &&& final(self).options == old(self).options
            }),
            r is Some ==> final(self).lexer@.pos >= old(self).lexer@.pos,
        decreases old(self).lexer@.tokens.len() - old(self).lexer@.pos, 1int,
    {
        proof { use_type_invariant(&self.lexer); }
        assert(old(self).lexer@.at(old(self).lexer@.pos) == old(self).lexer@);
        if self.check(TokenKind::r_brace) {
            assert(self.errors@ =~= old(self).errors@ + Seq::<ParseError>::empty());
            return Some((NodeList::Nil, None));
        }
        if self.check(TokenKind::dotdotdot) {
            let rest = match self.parse_match_rest_pattern_flow() {
                Some(x) => x,
                None => return None,
            };
            return Some((NodeList::Nil, Some(rest)));
        }
        let prop = match self.parse_match_prop() {
            Some(x) => x,
            None => return None,
        };
        proof { use_type_invariant(&self.lexer); }
        let ghost e1 = self.errors@;
        if self.check(TokenKind::comma) {
            self.advance();
            let (more, rest) = match self.parse_match_props() {
                Some(x) => x,
                None => {
                    assert(self.errors@ =~= old(self).errors@ + (e1.skip(old(self).errors@.len() as int) + self.errors@.skip(e1.len() as int)));
                    return None;
                },
            };
            assert(self.errors@ =~= old(self).errors@ + (e1.skip(old(self).errors@.len() as int) + self.errors@.skip(e1.len() as int)));
            return Some((NodeList::Cons(Box::new(prop), Box::new(more)), rest));
        }
        Some((NodeList::Cons(Box::new(prop), Box::new(NodeList::Nil)), None))
    }

    /// Parse one property of a match object pattern: the shorthand binding
    /// `const key`, or `key: pattern`.
    #[verifier::rlimit(100)]
    #[verifier::spinoff_prover]
    fn parse_match_prop(&mut self) -> (r: Option<Expr>)
        requires
            old(self).lexer@.is_fresh(),
        ensures
            ({
                let (res, errs, q) = spec_prop(old(self).lexer@.tokens, old(self).lexer@.pos, old(self).options);
                &&& r == res
                &&& final(self).errors@ == old(self).errors@ + errs
                &&& final(self).lexer@ == old(self).lexer@.at(q)
                &&& final(self).options == old(self).options
            }),
            r is Some ==> final(self).lexer@.pos > old(self).lexer@.pos,
        decreases old(self).lexer@.tokens.len() - old(self).lexer@.pos, 0int,
    {
        proof { use_type_invariant(&self.lexer); }
        assert(old(self).lexer@.at(old(self).lexer@.pos) == old(self).lexer@);
        let (start, _) = self.lexer.cur_range();
        let let_name: [u8; 3] = [108u8, 101u8, 116u8];
        assert(let_name@ =~= spec_let_name());
        if self.check(TokenKind::rw_const) || self.check(TokenKind::rw_var) || self.check_name(let_name.as_slice()) {
            let bp = match self.parse_match_binding_pattern_flow() {
                Some(x) => x,
                None => return None,
            };
            let end = self.lexer.prev_token_end();
            let key = match &bp.node {
                Node::MatchBindingPattern { id, .. } => Expr { parens: 0, node: Node::Identifier(match id.node {
                    Node::Identifier(i) => i,
                    _ => 0,
                }), start: id.start, end: id.end },
                _ => return None,
            };
            return Some(Expr { parens: 0, node: Node::MatchObjectPatternProperty { key: Box::new(key), pattern: Box::new(bp), shorthand: true }, start, end });
        }
        let key = match self.cur_kind() {
            TokenKind::identifier => self.make_match_current_identifier(),
            TokenKind::string_literal => self.make_match_string_literal(),
            TokenKind::numeric_literal => self.make_match_numeric_literal(),
            TokenKind::bigint_literal => self.make_match_bigint_literal(),
            _ => {
                self.error_cur(ErrorKind::ExpectedMatchPropertyKey);
                assert(self.errors@ =~= old(self).errors@ + seq![tok_err(ErrorKind::ExpectedMatchPropertyKey, old(self).lexer@.cur())]);
                return None;
            },
        };
        self.advance();
        proof { use_type_invariant(&self.lexer); }
        if !self.eat(TokenKind::colon) {
            assert(self.errors@ =~= old(self).errors@ + seq![tok_err(ErrorKind::Expected(TokenKind::colon), self.lexer@.cur())]);
            return None;
        }
        let pattern = match self.parse_match_pattern_flow() {
            Some(x) => x,
            None => return None,
        };
        let end = self.lexer.prev_token_end();
        Some(Expr { parens: 0, node: Node::MatchObjectPatternProperty { key: Box::new(key), pattern: Box::new(pattern), shorthand: false }, start, end })
    }

    /// Parse a match array pattern `[ elements ]`, with the current token at
    /// `[`: patterns separated by commas, possibly ended by a rest pattern.
    pub fn parse_match_array_pattern_flow(&mut self) -> (r: Option<Expr>)
        requires
            old(self).lexer@.is_fresh(),
            old(self).lexer@.kind == TokenKind::l_square,
        ensures
            ({
                let (res, errs, q) = spec_array_pattern(old(self).lexer@.tokens, old(self).lexer@.pos, old(self).options);
                &&& r == res
                &&& final(self).errors@ == old(self).errors@ + errs
                &&& final(self).lexer@ == old(self).lexer@.at(q)
                &&& final(self).options == old(self).options
            }),
            r is Some ==> final(self).lexer@.pos > old(self).lexer@.pos,
        decreases old(self).lexer@.tokens.len() - old(self).lexer@.pos, 1int,
    {
        proof { use_type_invariant(&self.lexer); }
        let (start, _) = self.advance();
        let (elements, rest) = match self.parse_match_elements() {
            Some(x) => x,
            None => return None,
        };
        proof { use_type_invariant(&self.lexer); }
        let ghost e1 = self.errors@;
        let (_, end) = self.lexer.cur_range();
        if !self.need(TokenKind::r_square) {
            assert(self.errors@ =~= old(self).errors@ + e1.skip(old(self).errors@.len() as int).push(tok_err(ErrorKind::Expected(TokenKind::r_square), self.lexer@.cur())));
            return None;
        }
        self.advance();
        Some(Expr { parens: 0, node: Node::MatchArrayPattern { elements, rest: boxed(rest) }, start, end })
    }

    /// Parse the elements of a match array pattern up to its closing `]`.
    #[verifier::rlimit(100)]
    #[verifier::spinoff_prover]
    fn parse_match_elements(&mut self) -> (r: Option<(NodeList, Option<Expr>)>)
        requires
            old(self).lexer@.is_fresh(),
        ensures
            ({
                let (res, errs, q) = spec_elements(old(self).lexer@.tokens, old(self).lexer@.pos, old(self).options);
                &&& r == res
                &&& final(self).errors@ == old(self).errors@ + errs
                &&& final(self).lexer@ == old(self).lexer@.at(q)
                &&& final(self).options == old(self).options
            }),
            r is Some ==> final(self).lexer@.pos >= old(self).lexer@.pos,
        decreases old(self).lexer@.tokens.len() - old(self).lexer@.pos, 4int,
    {
        proof { use_type_invariant(&self.lexer); }
        assert(old(self).lexer@.at(old(self).lexer@.pos) == old(self).lexer@);
        if self.check(TokenKind::r_square) {
            assert(self.errors@ =~= old(self).errors@ + Seq::<ParseError>::empty());
            return Some((NodeList::Nil, None));
        }
        if self.check(TokenKind::dotdotdot) {
            let rest = match self.parse_match_rest_pattern_flow() {
                Some(x) => x,
                None => return None,
            };
            return Some((NodeList::Nil, Some(rest)));
        }
        let pattern = match self.parse_match_pattern_flow() {
            Some(x) => x,
            None => return None,
        };
        proof { use_type_invariant(&self.lexer); }
        let ghost e1 = self.errors@;
        if self.check(TokenKind::comma) {
            self.advance();
            let (more, rest) = match self.parse_match_elements() {
                Some(x) => x,
                None => {
                    assert(self.errors@ =~= old(self).errors@ + (e1.skip(old(self).errors@.len() as int) + self.errors@.skip(e1.len() as int)));
                    return None;
                },
            };
            assert(self.errors@ =~= old(self).errors@ + (e1.skip(old(self).errors@.len() as int) + self.errors@.skip(e1.len() as int)));
            return Some((NodeList::Cons(Box::new(pattern), Box::new(more)), rest));
        }
        Some((NodeList::Cons(Box::new(pattern), Box::new(NodeList::Nil)), None))
    }

    /// Make the arguments `arg_list` written over `[start, end)` the
    /// argument of a `match`: the one argument, or the sequence of them. An
    /// empty list and each spread element are reported.
    pub fn reparse_arguments_as_match_argument_flow(&mut self, start: usize, end: usize, arg_list: Vec<Expr>) -> (r: Expr)
        ensures
            ({
                let (arg, errs) = spec_match_argument(start, end, arg_list@);
                &&& r == arg
                &&& final(self).errors@ == old(self).errors@ + errs
                &&& final(self).lexer@ == old(self).lexer@
                &&& final(self).options == old(self).options
            }),
    {
        let ghost args = arg_list@;
        let mut arg_list = arg_list;
        if arg_list.len() == 0 {
            self.error_at(ErrorKind::MatchArgumentEmpty, start, end);
        }
        let ghost e0 = self.errors@;
        let mut i: usize = 0;
        while i < arg_list.len()
            invariant
                arg_list@ == args,
                0 <= i <= args.len(),
                self.errors@ == e0 + spec_spread_errors(args.take(i as int)),
                self.lexer@ == old(self).lexer@,
                self.options == old(self).options,
            decreases args.len() - i,
        {
            proof {
                assert(args.take(i + 1).drop_last() =~= args.take(i as int));
                assert(args.take(i + 1).last() == args[i as int]);
            }
            let is_spread = match &arg_list[i].node {
                Node::SpreadElement { .. } => true,
                _ => false,
            };
            if is_spread {
                let (s, e) = (arg_list[i].start, arg_list[i].end);
                self.error_at(ErrorKind::MatchArgumentSpread, s, e);
                assert(self.errors@ =~= e0 + spec_spread_errors(args.take(i + 1)));
            } else {
                assert(self.errors@ =~= e0 + spec_spread_errors(args.take(i + 1)));
            }
            i = i + 1;
        }
        proof {
            assert(args.take(args.len() as int) =~= args);
            assert(self.errors@ =~= old(self).errors@ + spec_match_argument(start, end, args).1);
        }
        if arg_list.len() == 1 {
            match arg_list.pop() {
                Some(a) => return a,
                None => {},
            }
        }
        Expr { parens: 0, node: Node::SequenceExpression { expressions: list_from_vec(arg_list) }, start, end }
    }

}

/// Law: a literal token as a match subpattern is a literal pattern over
/// that one token, with no diagnostic: `true` and `false` give the boolean
/// whose value is whether the token is `true`, `null` the null literal, and
/// a number, bigint or string token the literal of that very token.
pub proof fn law_literal_pattern_keeps_value(toks: Seq<Token>, p: int, o: ParserOptions)
    requires
        0 <= p < toks.len(),
        toks[p].kind == TokenKind::rw_true || toks[p].kind == TokenKind::rw_false
            || toks[p].kind == TokenKind::rw_null || toks[p].kind == TokenKind::numeric_literal
            || toks[p].kind == TokenKind::bigint_literal || toks[p].kind == TokenKind::string_literal,
    ensures
        spec_subpattern(toks, p, o) == (Some(Expr { parens: 0,
            node: Node::MatchLiteralPattern {
                literal: Box::new(Expr { parens: 0,
                    node: if toks[p].kind == TokenKind::rw_null {
                        Node::NullLiteral
                    } else if toks[p].kind == TokenKind::numeric_literal {
                        Node::NumericLiteral(p as usize)
                    } else if toks[p].kind == TokenKind::bigint_literal {
                        Node::BigIntLiteral(p as usize)
                    } else if toks[p].kind == TokenKind::string_literal {
                        Node::StringLiteral(p as usize)
                    } else {
                        Node::BooleanLiteral(toks[p].kind == TokenKind::rw_true)
                    },
                    start: toks[p].start, end: toks[p].end }),
            },
            start: toks[p].start, end: toks[p].end }), Seq::<ParseError>::empty(), step(toks, p)),
{
}

} // verus!
