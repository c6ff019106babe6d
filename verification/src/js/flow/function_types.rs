//! Flow function types and return types: the parameters of a function or
//! hook type, the method-like signatures of object type members, and return
//! types with their type guards (`x is T`, `asserts x`, `implies x is T`).

use vstd::prelude::*;

use crate::js::expressions::{boxed, spec_boxed, spec_prev_end, Expr, Node, NodeList};
use crate::js::flow::declarations::err_at;
use crate::js::flow::match_::point_err;
use crate::js::flow::params::spec_type_params;
use crate::js::flow::types::{spec_type, UnsupportedSyntax};
use crate::js::{ErrorKind, JSParserImpl, ParseError};
use crate::lexer::{is_name_at, step, Token};
use crate::token_kinds::TokenKind;

verus! {

/// The kind of a type guard written with a keyword before the parameter.
#[derive(Clone, Copy, Debug, PartialEq, Eq, Structural)]
pub enum PredicateKind {
    /// `asserts x` or `asserts x is T`.
    Asserts,
    /// `implies x is T`.
    Implies,
}

/// The name `asserts`.
pub open spec fn spec_asserts_name() -> Seq<u8> {
    seq![97u8, 115u8, 115u8, 101u8, 114u8, 116u8, 115u8]
}

/// The name `implies`.
pub open spec fn spec_implies_name() -> Seq<u8> {
    seq![105u8, 109u8, 112u8, 108u8, 105u8, 101u8, 115u8]
}

/// The name `is`.
pub open spec fn spec_is_name() -> Seq<u8> {
    seq![105u8, 115u8]
}

/// The index of the token that a type written as a bare name consists of:
/// a generic type without type arguments whose name is not qualified, or a
/// built-in type given by name.
pub open spec fn spec_type_name_token(t: Expr) -> Option<usize> {
    match t.node {
        Node::GenericTypeAnnotation { id, type_parameters: None } => match id.node {
            Node::Identifier(i) => Some(i),
            _ => None,
        },
        Node::PrimitiveTypeAnnotation(_, i) => Some(i),
        _ => None,
    }
}

/// The type `t` read again as an identifier, over the same source range:
/// possible only when it was written as a bare name.
pub open spec fn spec_reparse_as_identifier(t: Expr) -> Result<Expr, ParseError> {
    match spec_type_name_token(t) {
        Some(i) => Ok(Expr { parens: 0, node: Node::Identifier(i), start: t.start, end: t.end }),
        None => Err(
            ParseError { kind: ErrorKind::Expected(TokenKind::identifier), start: t.start, end: t.end },
        ),
    }
}

/// Whether `t` is a generic type without type arguments.
pub open spec fn spec_is_bare_generic(t: Expr) -> bool {
    match t.node {
        Node::GenericTypeAnnotation { type_parameters: None, .. } => true,
        _ => false,
    }
}

/// The type guard node over the parameter `id`.
pub open spec fn spec_predicate(
    id: Expr,
    ta: Option<Expr>,
    kind: Option<PredicateKind>,
    start: usize,
    end: usize,
) -> Expr {
    Expr { parens: 0,
        node: Node::TypePredicate {
            parameter_name: Box::new(id),
            asserted_type: match ta {
                Some(t) => Some(Box::new(t)),
                None => None,
            },
            predicate_kind: kind,
        },
        start,
        end,
    }
}

/// The identifier node of the token at `p`.
pub open spec fn spec_ident_at(toks: Seq<Token>, p: int) -> Expr {
    Expr { parens: 0, node: Node::Identifier(p as usize), start: toks[p].start, end: toks[p].end }
}

/// A return type starting with the name `asserts` at `p`: the type
/// `asserts` itself, or `asserts x` / `asserts x is T` when a name follows.
pub open spec fn spec_asserts_return(toks: Seq<Token>, p: int) -> (Result<Expr, ParseError>, int) {
    let start = toks[p].start;
    match spec_type(toks, p) {
        (Err(e), r) => (Err(e), r),
        (Ok(t), r) => if toks[r].kind == TokenKind::identifier {
            match spec_reparse_as_identifier(t) {
                Err(e) => (Err(e), r),
                Ok(_) => {
                    let id = spec_ident_at(toks, r);
                    let r1 = step(toks, r);
                    if is_name_at(toks, r1, spec_is_name()) {
                        match spec_type(toks, step(toks, r1)) {
                            (Err(e), r2) => (Err(e), r2),
                            (Ok(ta), r2) => (
                                Ok(spec_predicate(id, Some(ta), Some(PredicateKind::Asserts), start, spec_prev_end(toks, r2))),
                                r2,
                            ),
                        }
                    } else {
                        (Ok(spec_predicate(id, None, Some(PredicateKind::Asserts), start, spec_prev_end(toks, r1))), r1)
                    }
                },
            }
        } else {
            (Ok(t), r)
        },
    }
}

/// A return type starting with the name `implies` at `p`: the type
/// `implies` itself, or `implies x is T` when a name or `this` follows.
pub open spec fn spec_implies_return(toks: Seq<Token>, p: int) -> (Result<Expr, ParseError>, int) {
    let start = toks[p].start;
    match spec_type(toks, p) {
        (Err(e), r) => (Err(e), r),
        (Ok(t), r) => if toks[r].kind == TokenKind::identifier || toks[r].kind == TokenKind::rw_this {
            if !spec_is_bare_generic(t) {
                (Err(point_err(ErrorKind::ImpliesNeedsIdentifier, toks[r])), r)
            } else {
                let id = spec_ident_at(toks, r);
                let r1 = step(toks, r);
                if !is_name_at(toks, r1, spec_is_name()) {
                    (Err(point_err(ErrorKind::ImpliesExpectsIs, toks[r1])), r1)
                } else {
                    match spec_type(toks, step(toks, r1)) {
                        (Err(e), r2) => (Err(e), r2),
                        (Ok(ta), r2) => (
                            Ok(spec_predicate(id, Some(ta), Some(PredicateKind::Implies), start, spec_prev_end(toks, r2))),
                            r2,
                        ),
                    }
                }
            }
        } else {
            (Ok(t), r)
        },
    }
}

/// Any other return type at `p`: a type, or `x is T` when the type is a
/// bare name followed by `is`.
pub open spec fn spec_plain_return(toks: Seq<Token>, p: int) -> (Result<Expr, ParseError>, int) {
    let start = toks[p].start;
    match spec_type(toks, p) {
        (Err(e), r) => (Err(e), r),
        (Ok(t), r) => if is_name_at(toks, r, spec_is_name()) {
            let r1 = step(toks, r);
            match spec_reparse_as_identifier(t) {
                Err(e) => (Err(e), r1),
                Ok(id) => match spec_type(toks, r1) {
                    (Err(e), r2) => (Err(e), r2),
                    (Ok(ta), r2) => (Ok(spec_predicate(id, Some(ta), None, start, spec_prev_end(toks, r2))), r2),
                },
            }
        } else {
            (Ok(t), r)
        },
    }
}

/// A return type at `p`, with its type guard if it has one; with
/// `wrapped_start`, wrapped in a type annotation node from there to its end.
pub open spec fn spec_return_type(toks: Seq<Token>, p: int, wrapped_start: Option<usize>) -> (Result<Expr, ParseError>, int) {
    let (res, r) = if is_name_at(toks, p, spec_asserts_name()) {
        spec_asserts_return(toks, p)
    } else if is_name_at(toks, p, spec_implies_name()) {
        spec_implies_return(toks, p)
    } else {
        spec_plain_return(toks, p)
    };
    match res {
        Err(e) => (Err(e), r),
        Ok(t) => match wrapped_start {
            None => (Ok(t), r),
            Some(s) => (Ok(Expr { parens: 0,
                node: Node::TypeAnnotation { type_annotation: Box::new(t) },
                start: s,
                end: spec_prev_end(toks, r),
            }), r),
        },
    }
}

/// The kind of the token after `p` when no line break comes before it
/// (`eof` past the last token); `None` after a line break.
pub open spec fn spec_next_kind(toks: Seq<Token>, p: int) -> Option<TokenKind> {
    if p < toks.len() - 1 {
        if toks[p + 1].new_line_before {
            None
        } else {
            Some(toks[p + 1].kind)
        }
    } else {
        Some(TokenKind::eof)
    }
}

/// Whether the token at `p` is `this` followed by `:`, a `this`
/// constraint.
pub open spec fn spec_this_colon(toks: Seq<Token>, p: int) -> bool {
    toks[p].kind == TokenKind::rw_this && spec_next_kind(toks, p) == Some(TokenKind::colon)
}

/// The sequence of nodes `s` as a node list, in order.
pub open spec fn spec_list_of(s: Seq<Expr>) -> NodeList
    decreases s.len(),
{
    if s.len() == 0 {
        NodeList::Nil
    } else {
        NodeList::Cons(Box::new(s[0]), Box::new(spec_list_of(s.skip(1))))
    }
}

/// The function type parameter node.
pub open spec fn spec_param_node(name: Option<Expr>, ta: Expr, optional: bool, start: usize, end: usize) -> Expr {
    Expr { parens: 0,
        node: Node::FunctionTypeParam { param_name: spec_boxed(name), type_annotation: Box::new(ta), optional },
        start,
        end,
    }
}

/// A parameter of a function type at `p`: a type, or `name: T` /
/// `name?: T` when the type is followed by `:` or `?` (it must then be a
/// bare name). `this: T` here is reported, as a constraint that is not the
/// first parameter, and parsing goes on.
pub open spec fn spec_function_type_param(toks: Seq<Token>, p: int) -> (Option<Expr>, Seq<ParseError>, int) {
    let start = toks[p].start;
    let e0 = if spec_this_colon(toks, p) {
        seq![err_at(ErrorKind::ThisConstraintNotFirst, toks[p])]
    } else {
        Seq::empty()
    };
    match spec_type(toks, p) {
        (Err(e), r) => (None, e0.push(e), r),
        (Ok(left), r) => if toks[r].kind == TokenKind::colon || toks[r].kind == TokenKind::question {
            match spec_reparse_as_identifier(left) {
                Err(e) => (None, e0.push(e), r),
                Ok(name) => {
                    let optional = toks[r].kind == TokenKind::question;
                    let r1 = if optional {
                        step(toks, r)
                    } else {
                        r
                    };
                    if toks[r1].kind != TokenKind::colon {
                        (None, e0.push(err_at(ErrorKind::Expected(TokenKind::colon), toks[r1])), r1)
                    } else {
                        match spec_type(toks, step(toks, r1)) {
                            (Err(e), r2) => (None, e0.push(e), r2),
                            (Ok(ta), r2) => (
                                Some(spec_param_node(Some(name), ta, optional, start, spec_prev_end(toks, r2))),
                                e0,
                                r2,
                            ),
                        }
                    }
                },
            }
        } else {
            (Some(spec_param_node(None, left, false, start, spec_prev_end(toks, r))), e0, r)
        },
    }
}

/// A parameter of a hook type at `p`: as a function type's, where a `this`
/// constraint is reported as unsupported by hooks as well.
pub open spec fn spec_hook_type_param(toks: Seq<Token>, p: int) -> (Option<Expr>, Seq<ParseError>, int) {
    let e0 = if spec_this_colon(toks, p) {
        seq![err_at(ErrorKind::HookThisConstraint, toks[p])]
    } else {
        Seq::empty()
    };
    let (res, e, r) = spec_function_type_param(toks, p);
    (res, e0 + e, r)
}

/// A parameter of a hook type when `hook`, of a function type otherwise.
pub open spec fn spec_any_type_param(toks: Seq<Token>, p: int, hook: bool) -> (Option<Expr>, Seq<ParseError>, int) {
    if hook {
        spec_hook_type_param(toks, p)
    } else {
        spec_function_type_param(toks, p)
    }
}

/// The parameters of a function or hook type from `q` up to the closing
/// `)` (excluded), appended to `acc`: each a parameter, or `...` and a rest
/// parameter that ends the list; separated by commas. Gives the rest
/// parameter (`None` when the parse stopped), the parameters, the
/// diagnostics and the position after.
pub open spec fn spec_type_params_loop(toks: Seq<Token>, q: int, hook: bool, acc: Seq<Expr>) -> (
    Option<Option<Expr>>,
    Seq<Expr>,
    Seq<ParseError>,
    int,
)
    decreases toks.len() - q,
{
    if !(0 <= q < toks.len()) || toks[q].kind == TokenKind::r_paren {
        (Some(None), acc, Seq::empty(), q)
    } else {
        let is_rest = toks[q].kind == TokenKind::dotdotdot;
        let q1 = if is_rest {
            step(toks, q)
        } else {
            q
        };
        match spec_any_type_param(toks, q1, hook) {
            (None, e, r) => (None, acc, e, r),
            (Some(prm), e, r) => if is_rest {
                (Some(Some(prm)), acc, e, if toks[r].kind == TokenKind::comma {
                    step(toks, r)
                } else {
                    r
                })
            } else if toks[r].kind == TokenKind::comma && q < r < toks.len() {
                let (res, ps, e2, s) = spec_type_params_loop(toks, step(toks, r), hook, acc.push(prm));
                (res, ps, e + e2, s)
            } else {
                (Some(None), acc.push(prm), e, r)
            },
        }
    }
}

/// After the parameters that start at `q` (the `this` constraint `this`,
/// with the diagnostics `errs0`, already read): the parameters, then `)`.
pub open spec fn spec_type_params_rest(
    toks: Seq<Token>,
    q: int,
    hook: bool,
    acc: Seq<Expr>,
    this: Option<Expr>,
    errs0: Seq<ParseError>,
) -> (Option<Option<Expr>>, Seq<Expr>, Option<Expr>, Seq<ParseError>, int) {
    let (res, ps, e, r) = spec_type_params_loop(toks, q, hook, acc);
    match res {
        None => (None, ps, this, errs0 + e, r),
        Some(rest) => if toks[r].kind == TokenKind::r_paren {
            (Some(rest), ps, this, errs0 + e, step(toks, r))
        } else {
            (None, ps, this, (errs0 + e).push(err_at(ErrorKind::Expected(TokenKind::r_paren), toks[r])), r)
        },
    }
}

/// The parameter list `( ... )` of a function (or, when `hook`, a hook)
/// type at `p`, where the token is `(`, with the parameters appended to
/// `acc`: for a function type, a first `this: T` constraint, then the
/// parameters and an optional rest parameter. Gives the rest parameter
/// (`None` when the parse stopped), the parameters, the `this` constraint,
/// the diagnostics and the position after.
pub open spec fn spec_function_type_params(toks: Seq<Token>, p: int, hook: bool, acc: Seq<Expr>) -> (
    Option<Option<Expr>>,
    Seq<Expr>,
    Option<Expr>,
    Seq<ParseError>,
    int,
) {
    let q0 = step(toks, p);
    let is_this = toks[q0].kind == TokenKind::rw_this && !hook;
    let next = spec_next_kind(toks, q0);
    if is_this && next == Some(TokenKind::colon) {
        match spec_type(toks, step(toks, step(toks, q0))) {
            (Err(e), r) => (None, acc, None, seq![e], r),
            (Ok(ta), r) => {
                let this = spec_param_node(None, ta, false, toks[q0].start, spec_prev_end(toks, r));
                let q3 = if toks[r].kind == TokenKind::comma {
                    step(toks, r)
                } else {
                    r
                };
                spec_type_params_rest(toks, q3, hook, acc, Some(this), Seq::empty())
            },
        }
    } else if is_this && next == Some(TokenKind::question) {
        spec_type_params_rest(toks, q0, hook, acc, None, seq![err_at(ErrorKind::ThisConstraintOptional, toks[q0])])
    } else {
        spec_type_params_rest(toks, q0, hook, acc, None, Seq::empty())
    }
}

/// The function type node.
pub open spec fn spec_function_node(
    ps: Seq<Expr>,
    this: Option<Expr>,
    ret: Expr,
    rest: Option<Expr>,
    tp: Option<Expr>,
    start: usize,
    end: usize,
) -> Expr {
    Expr { parens: 0,
        node: Node::FunctionTypeAnnotation {
            params: spec_list_of(ps),
            this_constraint: spec_boxed(this),
            return_type: Box::new(ret),
            rest: spec_boxed(rest),
            type_parameters: spec_boxed(tp),
        },
        start,
        end,
    }
}

/// The hook type node.
pub open spec fn spec_hook_node(ps: Seq<Expr>, ret: Expr, rest: Option<Expr>, tp: Option<Expr>, start: usize, end: usize) -> Expr {
    Expr { parens: 0,
        node: Node::HookTypeAnnotation {
            params: spec_list_of(ps),
            return_type: Box::new(ret),
            rest: spec_boxed(rest),
            type_parameters: spec_boxed(tp),
        },
        start,
        end,
    }
}

/// A method-like signature `(params): R` at `p`, for an object type member
/// that started at `start`, with the type parameters `tp` already read.
pub open spec fn spec_methodish(toks: Seq<Token>, p: int, start: usize, tp: Option<Expr>) -> (Option<Expr>, Seq<ParseError>, int) {
    if toks[p].kind != TokenKind::l_paren {
        (None, seq![err_at(ErrorKind::Expected(TokenKind::l_paren), toks[p])], p)
    } else {
        let (res, ps, this, e, r) = spec_function_type_params(toks, p, false, Seq::empty());
        match res {
            None => (None, e, r),
            Some(rest) => if toks[r].kind != TokenKind::colon {
                (None, e.push(err_at(ErrorKind::Expected(TokenKind::colon), toks[r])), r)
            } else {
                match spec_return_type(toks, step(toks, r), None) {
                    (Err(e2), r2) => (None, e.push(e2), r2),
                    (Ok(ret), r2) => (Some(spec_function_node(ps, this, ret, rest, tp, start, spec_prev_end(toks, r2))), e, r2),
                }
            },
        }
    }
}

/// The `=> R` at `p` ending a function type (a hook type when `hook`) that
/// started at `start`, whose parameters, `this` constraint, rest parameter
/// and type parameters were already read.
pub open spec fn spec_with_params(
    toks: Seq<Token>,
    p: int,
    start: usize,
    ps: Seq<Expr>,
    this: Option<Expr>,
    rest: Option<Expr>,
    tp: Option<Expr>,
    hook: bool,
) -> (Result<Expr, ParseError>, int) {
    match spec_return_type(toks, step(toks, p), None) {
        (Err(e), r) => (Err(e), r),
        (Ok(ret), r) => (Ok(if hook {
            spec_hook_node(ps, ret, rest, tp, start, spec_prev_end(toks, r))
        } else {
            spec_function_node(ps, this, ret, rest, tp, start, spec_prev_end(toks, r))
        }), r),
    }
}

/// A function (or hook) type from `q`, after its type parameters `tp`:
/// the parameter list, `=>` and the return type.
pub open spec fn spec_function_after_type_params(toks: Seq<Token>, q: int, start: usize, tp: Option<Expr>, hook: bool) -> (Option<Expr>, Seq<ParseError>, int) {
    if toks[q].kind != TokenKind::l_paren {
        (None, seq![err_at(ErrorKind::Expected(TokenKind::l_paren), toks[q])], q)
    } else {
        let (res, ps, this, e, r) = spec_function_type_params(toks, q, hook, Seq::empty());
        match res {
            None => (None, e, r),
            Some(rest) => if toks[r].kind != TokenKind::equalgreater {
                (None, e.push(err_at(ErrorKind::Expected(TokenKind::equalgreater), toks[r])), r)
            } else {
                match spec_with_params(toks, r, start, ps, this, rest, tp, hook) {
                    (Err(e2), r2) => (None, e.push(e2), r2),
                    (Ok(t), r2) => (Some(t), e, r2),
                }
            },
        }
    }
}

/// A function type (a hook type when `hook`) at `p`: optional type
/// parameters, the parameter list, `=>` and the return type.
pub open spec fn spec_function_or_hook(toks: Seq<Token>, p: int, hook: bool) -> (Option<Expr>, Seq<ParseError>, int) {
    let start = toks[p].start;
    if toks[p].kind == TokenKind::less {
        match spec_type_params(toks, p) {
            (Err(e), r) => (None, seq![e], r),
            (Ok(tp), r) => spec_function_after_type_params(toks, r, start, Some(tp), hook),
        }
    } else {
        spec_function_after_type_params(toks, p, start, None, hook)
    }
}

/// Whether the function type parameter `prm` has a name or is optional,
/// which only a parameter can have.
pub open spec fn spec_param_is_named(prm: Expr) -> bool {
    match prm.node {
        Node::FunctionTypeParam { param_name, optional, .. } => param_name is Some || optional,
        _ => false,
    }
}

/// The type of the function type parameter `prm`.
pub open spec fn spec_param_type(prm: Expr) -> Expr {
    match prm.node {
        Node::FunctionTypeParam { type_annotation, .. } => *type_annotation,
        _ => prm,
    }
}

/// A leading `this: T` constraint at `q`, inside parentheses. Gives the
/// constraint (`None` when the parse stopped), the diagnostics and the
/// position after it and its comma; `this?` is reported.
pub open spec fn spec_group_this(toks: Seq<Token>, q: int) -> (Option<Option<Expr>>, Seq<ParseError>, int) {
    if toks[q].kind == TokenKind::rw_this && spec_next_kind(toks, q) == Some(TokenKind::colon) {
        match spec_type(toks, step(toks, step(toks, q))) {
            (Err(e), r) => (None, seq![e], r),
            (Ok(ta), r) => (
                Some(Some(spec_param_node(None, ta, false, toks[q].start, spec_prev_end(toks, r)))),
                Seq::empty(),
                if toks[r].kind == TokenKind::comma {
                    step(toks, r)
                } else {
                    r
                },
            ),
        }
    } else if toks[q].kind == TokenKind::rw_this && spec_next_kind(toks, q) == Some(TokenKind::question) {
        (Some(None), seq![err_at(ErrorKind::ThisConstraintOptional, toks[q])], q)
    } else {
        (Some(None), Seq::empty(), q)
    }
}

/// The first item inside parentheses at `q`: `...` and a rest parameter
/// (when `allow`), the closing `)`, or a parameter. Gives whether the
/// parentheses must be a parameter list, the rest parameter and the
/// parameters.
#[verifier::opaque]
pub open spec fn spec_group_first(toks: Seq<Token>, q: int, allow: bool) -> (
    Option<(bool, Option<Expr>, Seq<Expr>)>,
    Seq<ParseError>,
    int,
) {
    if allow && toks[q].kind == TokenKind::dotdotdot {
        match spec_function_type_param(toks, step(toks, q)) {
            (None, e, r) => (None, e, r),
            (Some(rp), e, r) => (Some((true, Some(rp), Seq::empty())), e, r),
        }
    } else if toks[q].kind == TokenKind::r_paren {
        (Some((true, None, Seq::empty())), Seq::empty(), q)
    } else {
        match spec_function_type_param(toks, q) {
            (None, e, r) => (None, e, r),
            (Some(prm), e, r) => (Some((spec_param_is_named(prm), None, seq![prm])), e, r),
        }
    }
}

/// More parameters inside parentheses from `q` up to the closing `)`
/// (excluded), appended to `acc`; a `...` rest parameter ends them unless
/// one was already read (`rest_seen`).
pub open spec fn spec_group_loop(toks: Seq<Token>, q: int, rest_seen: bool, acc: Seq<Expr>) -> (
    Option<Option<Expr>>,
    Seq<Expr>,
    Seq<ParseError>,
    int,
)
    decreases toks.len() - q,
{
    if !(0 <= q < toks.len()) || toks[q].kind == TokenKind::r_paren {
        (Some(None), acc, Seq::empty(), q)
    } else {
        let is_rest = !rest_seen && toks[q].kind == TokenKind::dotdotdot;
        let q1 = if is_rest {
            step(toks, q)
        } else {
            q
        };
        match spec_function_type_param(toks, q1) {
            (None, e, r) => (None, acc, e, r),
            (Some(prm), e, r) => if is_rest {
                (Some(Some(prm)), acc, e, if toks[r].kind == TokenKind::comma {
                    step(toks, r)
                } else {
                    r
                })
            } else if toks[r].kind == TokenKind::comma && q < r < toks.len() {
                let (res, ps, e2, s) = spec_group_loop(toks, step(toks, r), rest_seen, acc.push(prm));
                (res, ps, e + e2, s)
            } else {
                (Some(None), acc.push(prm), e, r)
            },
        }
    }
}

/// After the first item inside parentheses, at `q`: when a comma follows
/// (and the parentheses are a parameter list, or `allow`), the remaining
/// parameters, which make them a parameter list.
#[verifier::opaque]
pub open spec fn spec_group_tail(
    toks: Seq<Token>,
    q: int,
    allow: bool,
    is_function: bool,
    rest: Option<Expr>,
    params: Seq<Expr>,
) -> (Option<(bool, Option<Expr>, Seq<Expr>)>, Seq<ParseError>, int) {
    if (is_function || allow) && toks[q].kind == TokenKind::comma {
        let (res, ps, e, r) = spec_group_loop(toks, step(toks, q), rest is Some, params);
        match res {
            None => (None, e, r),
            Some(rest2) => (Some((true, if rest2 is Some {
                rest2
            } else {
                rest
            }, ps)), e, r),
        }
    } else {
        (Some((is_function, rest, params)), Seq::empty(), q)
    }
}


/// The end of a type in parentheses or a function type that started at
/// `start`, at `q`: `)`, then, for a parameter list (`is_function`, or
/// when `allow` and `=>` follows), `=> R`. Without a parameter list the
/// type of the one parameter read is the result.
#[verifier::opaque]
pub open spec fn spec_group_close(
    toks: Seq<Token>,
    q: int,
    start: usize,
    allow: bool,
    is_function: bool,
    this: Option<Expr>,
    rest: Option<Expr>,
    ps: Seq<Expr>,
) -> (Option<Expr>, Seq<ParseError>, int) {
    if toks[q].kind != TokenKind::r_paren {
        (None, seq![err_at(ErrorKind::Expected(TokenKind::r_paren), toks[q])], q)
    } else {
        let q1 = step(toks, q);
        let arrow = toks[q1].kind == TokenKind::equalgreater;
        if is_function && !arrow {
            (None, seq![err_at(ErrorKind::Expected(TokenKind::equalgreater), toks[q1])], q1)
        } else if !is_function && !(allow && arrow) {
            (Some(spec_param_type(ps[0])), Seq::empty(), q1)
        } else {
            match spec_return_type(toks, step(toks, q1), None) {
                (Err(e), r) => (None, seq![e], r),
                (Ok(ret), r) => (Some(spec_function_node(ps, this, ret, rest, None, start, spec_prev_end(toks, r))), Seq::empty(), r),
            }
        }
    }
}

/// A type in parentheses or a function type at `p`, where the token is
/// `(`: the type, when the parentheses hold one type that nothing marks as
/// a parameter; otherwise the parameters and `=> R`. With `allow`, a
/// leading `...`, a comma or a `=>` after the `)` makes a function type;
/// without it, only a named or optional parameter, `this: T` or `()` does.
pub open spec fn spec_group(toks: Seq<Token>, p: int, allow: bool) -> (Option<Expr>, Seq<ParseError>, int) {
    let start = toks[p].start;
    let (tr, e0, q1) = spec_group_this(toks, step(toks, p));
    match tr {
        None => (None, e0, q1),
        Some(this) => {
            let (res, e, q) = spec_group_body(toks, q1, start, allow, this);
            (res, e0 + e, q)
        },
    }
}

/// A type in parentheses or a function type that started at `start`, from
/// `q`, after its `this` constraint `this`.
pub open spec fn spec_group_body(toks: Seq<Token>, q: int, start: usize, allow: bool, this: Option<Expr>) -> (
    Option<Expr>,
    Seq<ParseError>,
    int,
) {
    let (fr, e1, q2) = spec_group_first(toks, q, allow);
    match fr {
        None => (None, e1, q2),
        Some((f1, rest1, ps1)) => {
            let (tr2, e2, q3) = spec_group_tail(toks, q2, allow, f1, rest1, ps1);
            match tr2 {
                None => (None, e1 + e2, q3),
                Some((f2, rest, ps)) => {
                    let (res, e3, q4) = spec_group_close(toks, q3, start, allow, f2, this, rest, ps);
                    (res, e1 + e2 + e3, q4)
                },
            }
        },
    }
}

/// The name `%checks`, as the lexer reads it in a type.
pub open spec fn spec_checks_name() -> Seq<u8> {
    seq![37u8, 99u8, 104u8, 101u8, 99u8, 107u8, 115u8]
}

/// A predicate at `p`, where the token is `%checks`: the inferred
/// predicate `%checks`. A declared predicate `%checks(expr)` is reported
/// as unsupported at its `(`.
pub open spec fn spec_predicate_flow(toks: Seq<Token>, p: int) -> (Result<Expr, ParseError>, int) {
    let q = step(toks, p);
    if toks[q].kind == TokenKind::l_paren {
        (Err(err_at(ErrorKind::Unsupported(UnsupportedSyntax::DeclaredPredicate), toks[q])), q)
    } else {
        (Ok(Expr { parens: 0, node: Node::InferredPredicate, start: toks[p].start, end: toks[p].end }), q)
    }
}

/// A parameter of a function type that is not read is reported.
proof fn lemma_param_failure_reported(toks: Seq<Token>, p: int, hook: bool)
    ensures
        spec_any_type_param(toks, p, hook).0 is None ==> spec_any_type_param(toks, p, hook).1.len() > 0,
{
}

/// Parameters of a function type that are not read are reported.
proof fn lemma_params_loop_failure_reported(toks: Seq<Token>, q: int, hook: bool, acc: Seq<Expr>)
    ensures
        spec_type_params_loop(toks, q, hook, acc).0 is None ==> spec_type_params_loop(toks, q, hook, acc).2.len() > 0,
    decreases toks.len() - q,
{
    if 0 <= q < toks.len() && toks[q].kind != TokenKind::r_paren {
        let is_rest = toks[q].kind == TokenKind::dotdotdot;
        let q1 = if is_rest {
            step(toks, q)
        } else {
            q
        };
        lemma_param_failure_reported(toks, q1, hook);
        match spec_any_type_param(toks, q1, hook) {
            (Some(prm), e, r) => if !is_rest && toks[r].kind == TokenKind::comma && q < r < toks.len() {
                lemma_params_loop_failure_reported(toks, step(toks, r), hook, acc.push(prm));
            },
            _ => {},
        }
    }
}

/// The parameter list of a function or hook type is read, or its failure
/// is reported: when the parse stops (the outer `None`), at least one
/// diagnostic was given.
pub proof fn law_function_type_params_failure_reported(toks: Seq<Token>, p: int, hook: bool, acc: Seq<Expr>)
    ensures
        spec_function_type_params(toks, p, hook, acc).0 is None ==> spec_function_type_params(
            toks,
            p,
            hook,
            acc,
        ).3.len() > 0,
{
    let q0 = step(toks, p);
    let is_this = toks[q0].kind == TokenKind::rw_this && !hook;
    let next = spec_next_kind(toks, q0);
    if is_this && next == Some(TokenKind::colon) {
        match spec_type(toks, step(toks, step(toks, q0))) {
            (Ok(ta), r) => {
                let q3 = if toks[r].kind == TokenKind::comma {
                    step(toks, r)
                } else {
                    r
                };
                lemma_params_loop_failure_reported(toks, q3, hook, acc);
            },
            _ => {},
        }
    } else {
        lemma_params_loop_failure_reported(toks, q0, hook, acc);
    }
}

/// A method-like signature that is not read is reported.
pub proof fn lemma_methodish_failure_reported(toks: Seq<Token>, p: int, start: usize, tp: Option<Expr>)
    ensures
        spec_methodish(toks, p, start, tp).0 is None ==> spec_methodish(toks, p, start, tp).1.len() > 0,
{
    law_function_type_params_failure_reported(toks, p, false, Seq::empty());
}

/// The nodes of `v`, in order, as a node list.
pub fn list_from_vec(v: Vec<Expr>) -> (r: NodeList)
    ensures
        r == spec_list_of(v@),
{
    let ghost orig = v@;
    let mut v = v;
    let mut l = NodeList::Nil;
    while v.len() > 0
        invariant
            v.len() <= orig.len(),
            v@ == orig.take(v.len() as int),
            l == spec_list_of(orig.skip(v.len() as int)),
        decreases v.len(),
    {
        let ghost n = v.len() as int;
        let e = match v.pop() {
            Some(e) => e,
            None => return l,
        };
        proof {
            assert(orig.take(n)[n - 1] == orig[n - 1]);
            assert(orig.skip(n - 1).skip(1) =~= orig.skip(n));
            assert(orig.skip(n - 1)[0] == orig[n - 1]);
            assert(v@ =~= orig.take(n - 1));
        }
        l = NodeList::Cons(Box::new(e), Box::new(l));
    }
    proof { assert(orig.skip(0) =~= orig); }
    l
}

impl JSParserImpl {
    /// Read the type `t` again as an identifier over the same source range,
    /// where it was written as a bare name (a generic type without type
    /// arguments or qualification, or a built-in type's name); otherwise
    /// report that an identifier was expected there.
    pub fn reparse_type_annotation_as_identifier_flow(&mut self, t: &Expr) -> (r: Option<Expr>)
        ensures
            final(self).lexer@ == old(self).lexer@,
            final(self).options == old(self).options,
            match spec_reparse_as_identifier(*t) {
                Ok(id) => r == Some(id) && final(self).errors@ == old(self).errors@,
                Err(e) => r is None && final(self).errors@ == old(self).errors@.push(e),
            },
    {
        let tok: Option<usize> = match &t.node {
            Node::GenericTypeAnnotation { id, type_parameters: None } => match id.node {
                Node::Identifier(i) => Some(i),
                _ => None,
            },
            Node::PrimitiveTypeAnnotation(_, i) => Some(*i),
            _ => None,
        };
        match tok {
            Some(i) => Some(Expr { parens: 0, node: Node::Identifier(i), start: t.start, end: t.end }),
            None => {
                self.error_at(ErrorKind::Expected(TokenKind::identifier), t.start, t.end);
                None
            },
        }
    }

    /// Parse a return type: a type, or a type guard `x is T`,
    /// `asserts x`, `asserts x is T` or `implies x is T`. With
    /// `wrapped_start`, wrap it in a type annotation node that starts there.
    #[verifier::rlimit(100)]
    #[verifier::spinoff_prover]
    pub fn parse_return_type_annotation_flow(&mut self, wrapped_start: Option<usize>) -> (r: Option<Expr>)
        requires
            old(self).lexer@.is_fresh(),
        ensures
            ({
                let (res, q) = spec_return_type(old(self).lexer@.tokens, old(self).lexer@.pos, wrapped_start);
                &&& final(self).options == old(self).options
                &&& final(self).lexer@ == old(self).lexer@.at(q)
                &&& match res {
                    Ok(e) => r == Some(e) && final(self).errors@ == old(self).errors@,
                    Err(e) => r is None && final(self).errors@ == old(self).errors@.push(e),
                }
            }),
            r is Some ==> final(self).lexer@.pos > old(self).lexer@.pos,
    {
        proof { use_type_invariant(&self.lexer); }
        let ghost toks = old(self).lexer@.tokens;
        let (start, _) = self.lexer.cur_range();
        let asserts: [u8; 7] = [97u8, 115u8, 115u8, 101u8, 114u8, 116u8, 115u8];
        let implies: [u8; 7] = [105u8, 109u8, 112u8, 108u8, 105u8, 101u8, 115u8];
        let is: [u8; 2] = [105u8, 115u8];
        proof {
            assert(asserts@ =~= spec_asserts_name());
            assert(implies@ =~= spec_implies_name());
            assert(is@ =~= spec_is_name());
        }
        let return_type = if self.check_name(asserts.as_slice()) {
            let t = match self.parse_type_annotation_flow(None) {
                Some(t) => t,
                None => return None,
            };
            proof { use_type_invariant(&self.lexer); }
            if self.check(TokenKind::identifier) {
                if self.reparse_type_annotation_as_identifier_flow(&t).is_none() {
                    return None;
                }
                let idx = self.lexer.cur_index();
                let (s, e) = self.advance();
                proof { use_type_invariant(&self.lexer); }
                let ta = if self.check_name(is.as_slice()) {
                    self.advance();
                    match self.parse_type_annotation_flow(None) {
                        Some(t) => Some(Box::new(t)),
                        None => return None,
                    }
                } else {
                    None
                };
                let end = self.lexer.prev_token_end();
                Expr { parens: 0,
                    node: Node::TypePredicate {
                        parameter_name: Box::new(Expr { parens: 0, node: Node::Identifier(idx), start: s, end: e }),
                        asserted_type: ta,
                        predicate_kind: Some(PredicateKind::Asserts),
                    },
                    start,
                    end,
                }
            } else {
                t
            }
        } else if self.check_name(implies.as_slice()) {
            let t = match self.parse_type_annotation_flow(None) {
                Some(t) => t,
                None => return None,
            };
            proof { use_type_invariant(&self.lexer); }
            if self.check2(TokenKind::identifier, TokenKind::rw_this) {
                let bare = match &t.node {
                    Node::GenericTypeAnnotation { type_parameters: None, .. } => true,
                    _ => false,
                };
                if !bare {
                    let (s, _) = self.lexer.cur_range();
                    self.error_at(ErrorKind::ImpliesNeedsIdentifier, s, s);
                    return None;
                }
                let idx = self.lexer.cur_index();
                let (s, e) = self.advance();
                proof { use_type_invariant(&self.lexer); }
                if self.check_name(is.as_slice()) {
                    self.advance();
                } else {
                    let (s2, _) = self.lexer.cur_range();
                    self.error_at(ErrorKind::ImpliesExpectsIs, s2, s2);
                    return None;
                }
                let ta = match self.parse_type_annotation_flow(None) {
                    Some(t) => t,
                    None => return None,
                };
                let end = self.lexer.prev_token_end();
                Expr { parens: 0,
                    node: Node::TypePredicate {
                        parameter_name: Box::new(Expr { parens: 0, node: Node::Identifier(idx), start: s, end: e }),
                        asserted_type: Some(Box::new(ta)),
                        predicate_kind: Some(PredicateKind::Implies),
                    },
                    start,
                    end,
                }
            } else {
                t
            }
        } else {
            let t = match self.parse_type_annotation_flow(None) {
                Some(t) => t,
                None => return None,
            };
            proof { use_type_invariant(&self.lexer); }
            if self.check_name(is.as_slice()) {
                self.advance();
                let id = match self.reparse_type_annotation_as_identifier_flow(&t) {
                    Some(id) => id,
                    None => return None,
                };
                let ta = match self.parse_type_annotation_flow(None) {
                    Some(t) => t,
                    None => return None,
                };
                let end = self.lexer.prev_token_end();
                Expr { parens: 0,
                    node: Node::TypePredicate {
                        parameter_name: Box::new(id),
                        asserted_type: Some(Box::new(ta)),
                        predicate_kind: None,
                    },
                    start,
                    end,
                }
            } else {
                t
            }
        };
        match wrapped_start {
            None => Some(return_type),
            Some(s) => {
                let end = self.lexer.prev_token_end();
                Some(Expr { parens: 0, node: Node::TypeAnnotation { type_annotation: Box::new(return_type) }, start: s, end })
            },
        }
    }

    /// Parse a parameter of a function type: a type, or `name: T` /
    /// `name?: T` when the type is followed by `:` or `?` (it must then be
    /// a bare name). A `this: T` here is reported, as a constraint that is
    /// not the first parameter, and parsing goes on.
    #[verifier::rlimit(100)]
    #[verifier::spinoff_prover]
    pub fn parse_function_type_annotation_param_flow(&mut self) -> (r: Option<Expr>)
        requires
            old(self).lexer@.is_fresh(),
        ensures
            ({
                let (res, errs, q) = spec_function_type_param(old(self).lexer@.tokens, old(self).lexer@.pos);
                &&& r == res
                &&& final(self).errors@ == old(self).errors@ + errs
                &&& final(self).lexer@ == old(self).lexer@.at(q)
                &&& final(self).options == old(self).options
            }),
            r is Some ==> final(self).lexer@.pos > old(self).lexer@.pos,
    {
        proof { use_type_invariant(&self.lexer); }
        let ghost toks = old(self).lexer@.tokens;
        let ghost p = old(self).lexer@.pos;
        let (start, _) = self.lexer.cur_range();
        if self.check(TokenKind::rw_this) {
            let next = self.lexer.lookahead1();
            if next == Some(TokenKind::colon) {
                self.error_cur(ErrorKind::ThisConstraintNotFirst);
            }
        }
        let ghost e0 = self.errors@.skip(old(self).errors@.len() as int);
        assert(self.errors@ =~= old(self).errors@ + e0);
        assert(self.lexer@ == old(self).lexer@.at(p));
        let left = match self.parse_type_annotation_flow(None) {
            Some(t) => t,
            None => {
                assert(self.errors@ =~= old(self).errors@ + e0.push(self.errors@.last()));
                return None;
            },
        };
        proof { use_type_invariant(&self.lexer); }
        if self.check2(TokenKind::colon, TokenKind::question) {
            let name = match self.reparse_type_annotation_as_identifier_flow(&left) {
                Some(n) => n,
                None => {
                    assert(self.errors@ =~= old(self).errors@ + e0.push(self.errors@.last()));
                    return None;
                },
            };
            let optional = self.check_and_eat(TokenKind::question);
            proof { use_type_invariant(&self.lexer); }
            if !self.eat(TokenKind::colon) {
                assert(self.errors@ =~= old(self).errors@ + e0.push(self.errors@.last()));
                return None;
            }
            let ta = match self.parse_type_annotation_flow(None) {
                Some(t) => t,
                None => {
                    assert(self.errors@ =~= old(self).errors@ + e0.push(self.errors@.last()));
                    return None;
                },
            };
            let end = self.lexer.prev_token_end();
            Some(
                Expr { parens: 0,
                    node: Node::FunctionTypeParam {
                        param_name: Some(Box::new(name)),
                        type_annotation: Box::new(ta),
                        optional,
                    },
                    start,
                    end,
                },
            )
        } else {
            let end = self.lexer.prev_token_end();
            Some(
                Expr { parens: 0,
                    node: Node::FunctionTypeParam { param_name: None, type_annotation: Box::new(left), optional: false },
                    start,
                    end,
                },
            )
        }
    }

    /// Parse a parameter of a hook type: as a function type's, where a
    /// `this` constraint is reported as unsupported by hooks as well.
    pub fn parse_hook_type_annotation_param_flow(&mut self) -> (r: Option<Expr>)
        requires
            old(self).lexer@.is_fresh(),
        ensures
            ({
                let (res, errs, q) = spec_hook_type_param(old(self).lexer@.tokens, old(self).lexer@.pos);
                &&& r == res
                &&& final(self).errors@ == old(self).errors@ + errs
                &&& final(self).lexer@ == old(self).lexer@.at(q)
                &&& final(self).options == old(self).options
            }),
            r is Some ==> final(self).lexer@.pos > old(self).lexer@.pos,
    {
        proof { use_type_invariant(&self.lexer); }
        if self.check(TokenKind::rw_this) && self.lexer.lookahead1() == Some(TokenKind::colon) {
            self.error_cur(ErrorKind::HookThisConstraint);
        }
        let ghost e0 = self.errors@.skip(old(self).errors@.len() as int);
        assert(self.errors@ =~= old(self).errors@ + e0);
        let r = self.parse_function_type_annotation_param_flow();
        proof {
            let (_, e, _) = spec_function_type_param(old(self).lexer@.tokens, old(self).lexer@.pos);
            assert(self.errors@ =~= old(self).errors@ + (e0 + e));
        }
        r
    }

    /// Parse the parameters of a function or hook type up to the closing
    /// `)`, appending them to `params`; returns the rest parameter.
    #[verifier::rlimit(100)]
    #[verifier::spinoff_prover]
    fn parse_type_params_loop(&mut self, params: &mut Vec<Expr>, hook: bool) -> (r: Option<Option<Expr>>)
        requires
            old(self).lexer@.is_fresh(),
        ensures
            ({
                let (res, ps, errs, q) = spec_type_params_loop(
                    old(self).lexer@.tokens,
                    old(self).lexer@.pos,
                    hook,
                    old(params)@,
                );
                &&& r == res
                &&& final(params)@ == ps
                &&& final(self).errors@ == old(self).errors@ + errs
                &&& final(self).lexer@ == old(self).lexer@.at(q)
                &&& final(self).options == old(self).options
            }),
            r is Some ==> final(self).lexer@.pos >= old(self).lexer@.pos,
        decreases old(self).lexer@.tokens.len() - old(self).lexer@.pos,
    {
        proof { use_type_invariant(&self.lexer); }
        assert(old(self).lexer@.at(old(self).lexer@.pos) == old(self).lexer@);
        if self.check(TokenKind::r_paren) {
            assert(self.errors@ =~= old(self).errors@ + Seq::<ParseError>::empty());
            return Some(None);
        }
        let is_rest = self.check_and_eat(TokenKind::dotdotdot);
        proof { use_type_invariant(&self.lexer); }
        let param = if hook {
            self.parse_hook_type_annotation_param_flow()
        } else {
            self.parse_function_type_annotation_param_flow()
        };
        let param = match param {
            Some(x) => x,
            None => return None,
        };
        proof { use_type_invariant(&self.lexer); }
        if is_rest {
            self.check_and_eat(TokenKind::comma);
            return Some(Some(param));
        }
        params.push(param);
        let ghost e1 = self.errors@;
        if self.check(TokenKind::comma) {
            self.advance();
            let r = self.parse_type_params_loop(params, hook);
            assert(self.errors@ =~= old(self).errors@ + (e1.skip(old(self).errors@.len() as int) + self.errors@.skip(e1.len() as int)));
            return r;
        }
        Some(None)
    }

    /// Parse the parameter list `( ... )` of a function type (or, when
    /// `hook`, a hook type), with the current token at `(`: for a function
    /// type, a first `this: T` constraint, stored in `this_constraint`;
    /// then the parameters, appended to `params`, and an optional rest
    /// parameter after `...`, which is returned. An optional `this?`
    /// constraint is reported and parsing goes on.
    #[verifier::rlimit(100)]
    #[verifier::spinoff_prover]
    pub fn parse_function_type_annotation_params_flow(
        &mut self,
        params: &mut Vec<Expr>,
        this_constraint: &mut Option<Expr>,
        hook: bool,
    ) -> (r: Option<Option<Expr>>)
        requires
            old(self).lexer@.is_fresh(),
            old(self).lexer@.kind == TokenKind::l_paren,
        ensures
            ({
                let (res, ps, this, errs, q) = spec_function_type_params(
                    old(self).lexer@.tokens,
                    old(self).lexer@.pos,
                    hook,
                    old(params)@,
                );
                &&& r == res
                &&& final(params)@ == ps
                &&& *final(this_constraint) == this
                &&& final(self).errors@ == old(self).errors@ + errs
                &&& final(self).lexer@ == old(self).lexer@.at(q)
                &&& final(self).options == old(self).options
            }),
            r is Some ==> final(self).lexer@.pos > old(self).lexer@.pos,
    {
        proof { use_type_invariant(&self.lexer); }
        let ghost toks = old(self).lexer@.tokens;
        let ghost p = old(self).lexer@.pos;
        self.advance();
        proof { use_type_invariant(&self.lexer); }
        *this_constraint = None;
        if self.check(TokenKind::rw_this) && !hook {
            let next = self.lexer.lookahead1();
            if next == Some(TokenKind::colon) {
                let (this_start, _) = self.advance();
                self.advance();
                let ta = match self.parse_type_annotation_flow(None) {
                    Some(t) => t,
                    None => {
                        assert(self.errors@ =~= old(self).errors@ + seq![self.errors@.last()]);
                        return None;
                    },
                };
                let end = self.lexer.prev_token_end();
                *this_constraint = Some(
                    Expr { parens: 0,
                        node: Node::FunctionTypeParam { param_name: None, type_annotation: Box::new(ta), optional: false },
                        start: this_start,
                        end,
                    },
                );
                proof { use_type_invariant(&self.lexer); }
                self.check_and_eat(TokenKind::comma);
            } else if next == Some(TokenKind::question) {
                self.error_cur(ErrorKind::ThisConstraintOptional);
            }
        }
        proof { use_type_invariant(&self.lexer); }
        let ghost e0 = self.errors@.skip(old(self).errors@.len() as int);
        assert(self.errors@ =~= old(self).errors@ + e0);
        let rest = match self.parse_type_params_loop(params, hook) {
            Some(x) => x,
            None => {
                assert(self.errors@ =~= old(self).errors@ + (e0 + self.errors@.skip((old(self).errors@.len() + e0.len()) as int)));
                return None;
            },
        };
        let ghost e1 = self.errors@.skip(old(self).errors@.len() as int);
        assert(self.errors@ =~= old(self).errors@ + e1);
        proof { use_type_invariant(&self.lexer); }
        if !self.eat(TokenKind::r_paren) {
            assert(self.errors@ =~= old(self).errors@ + e1.push(self.errors@.last()));
            return None;
        }
        Some(rest)
    }


    /// Parse the `=> R` ending a function type (a hook type when `hook`)
    /// that started at `start`, with the current token at `=>`; its
    /// parameters, `this` constraint, rest parameter and type parameters
    /// were already read.
    pub fn parse_function_type_annotation_with_params_flow(
        &mut self,
        start: usize,
        params: Vec<Expr>,
        this_constraint: Option<Expr>,
        rest: Option<Expr>,
        type_params: Option<Expr>,
        hook: bool,
    ) -> (r: Option<Expr>)
        requires
            old(self).lexer@.is_fresh(),
            old(self).lexer@.kind == TokenKind::equalgreater,
        ensures
            ({
                let (res, q) = spec_with_params(
                    old(self).lexer@.tokens,
                    old(self).lexer@.pos,
                    start,
                    params@,
                    this_constraint,
                    rest,
                    type_params,
                    hook,
                );
                &&& final(self).options == old(self).options
                &&& final(self).lexer@ == old(self).lexer@.at(q)
                &&& match res {
                    Ok(e) => r == Some(e) && final(self).errors@ == old(self).errors@,
                    Err(e) => r is None && final(self).errors@ == old(self).errors@.push(e),
                }
            }),
            r is Some ==> final(self).lexer@.pos > old(self).lexer@.pos,
    {
        proof { use_type_invariant(&self.lexer); }
        self.advance();
        proof { use_type_invariant(&self.lexer); }
        let return_type = match self.parse_return_type_annotation_flow(None) {
            Some(t) => t,
            None => return None,
        };
        let end = self.lexer.prev_token_end();
        let params = list_from_vec(params);
        if !hook {
            Some(
                Expr { parens: 0,
                    node: Node::FunctionTypeAnnotation {
                        params,
                        this_constraint: boxed(this_constraint),
                        return_type: Box::new(return_type),
                        rest: boxed(rest),
                        type_parameters: boxed(type_params),
                    },
                    start,
                    end,
                },
            )
        } else {
            Some(
                Expr { parens: 0,
                    node: Node::HookTypeAnnotation {
                        params,
                        return_type: Box::new(return_type),
                        rest: boxed(rest),
                        type_parameters: boxed(type_params),
                    },
                    start,
                    end,
                },
            )
        }
    }

    /// Parse a function type `<T>(params) => R`.
    pub fn parse_function_type_annotation_flow(&mut self) -> (r: Option<Expr>)
        requires
            old(self).lexer@.is_fresh(),
        ensures
            ({
                let (res, errs, q) = spec_function_or_hook(old(self).lexer@.tokens, old(self).lexer@.pos, false);
                &&& r == res
                &&& final(self).errors@ == old(self).errors@ + errs
                &&& final(self).lexer@ == old(self).lexer@.at(q)
                &&& final(self).options == old(self).options
            }),
    {
        self.parse_function_or_hook_type_annotation_flow(false)
    }

    /// Parse a function type (a hook type when `hook`): optional type
    /// parameters, the parameter list, `=>` and the return type.
    #[verifier::rlimit(100)]
    #[verifier::spinoff_prover]
    pub fn parse_function_or_hook_type_annotation_flow(&mut self, hook: bool) -> (r: Option<Expr>)
        requires
            old(self).lexer@.is_fresh(),
        ensures
            ({
                let (res, errs, q) = spec_function_or_hook(old(self).lexer@.tokens, old(self).lexer@.pos, hook);
                &&& r == res
                &&& final(self).errors@ == old(self).errors@ + errs
                &&& final(self).lexer@ == old(self).lexer@.at(q)
                &&& final(self).options == old(self).options
            }),
    {
        proof { use_type_invariant(&self.lexer); }
        assert(old(self).lexer@.at(old(self).lexer@.pos) == old(self).lexer@);
        let (start, _) = self.lexer.cur_range();
        let mut type_params: Option<Expr> = None;
        if self.check(TokenKind::less) {
            type_params = match self.parse_type_params_flow() {
                Some(t) => Some(t),
                None => {
                    assert(self.errors@ =~= old(self).errors@ + seq![self.errors@.last()]);
                    return None;
                },
            };
        }
        proof { use_type_invariant(&self.lexer); }
        if !self.need(TokenKind::l_paren) {
            assert(self.errors@ =~= old(self).errors@ + seq![self.errors@.last()]);
            return None;
        }
        let mut params: Vec<Expr> = Vec::new();
        let mut this_constraint: Option<Expr> = None;
        let rest = match self.parse_function_type_annotation_params_flow(&mut params, &mut this_constraint, hook) {
            Some(x) => x,
            None => return None,
        };
        let ghost e1 = self.errors@.skip(old(self).errors@.len() as int);
        assert(self.errors@ =~= old(self).errors@ + e1);
        proof { use_type_invariant(&self.lexer); }
        if !self.need(TokenKind::equalgreater) {
            assert(self.errors@ =~= old(self).errors@ + e1.push(self.errors@.last()));
            return None;
        }
        let r = self.parse_function_type_annotation_with_params_flow(
            start,
            params,
            this_constraint,
            rest,
            type_params,
            hook,
        );
        proof {
            if r is None {
                assert(self.errors@ =~= old(self).errors@ + e1.push(self.errors@.last()));
            }
        }
        r
    }

    /// Parse a method-like signature `(params): R` of an object type member
    /// that started at `start`, whose type parameters `type_params` were
    /// already read.
    #[verifier::rlimit(100)]
    #[verifier::spinoff_prover]
    pub fn parse_methodish_type_annotation_flow(&mut self, start: usize, type_params: Option<Expr>) -> (r: Option<Expr>)
        requires
            old(self).lexer@.is_fresh(),
        ensures
            ({
                let (res, errs, q) = spec_methodish(old(self).lexer@.tokens, old(self).lexer@.pos, start, type_params);
                &&& r == res
                &&& final(self).errors@ == old(self).errors@ + errs
                &&& final(self).lexer@ == old(self).lexer@.at(q)
                &&& final(self).options == old(self).options
            }),
            r is Some ==> final(self).lexer@.pos > old(self).lexer@.pos,
    {
        proof { use_type_invariant(&self.lexer); }
        assert(old(self).lexer@.at(old(self).lexer@.pos) == old(self).lexer@);
        if !self.need(TokenKind::l_paren) {
            assert(self.errors@ =~= old(self).errors@ + seq![self.errors@.last()]);
            return None;
        }
        let mut params: Vec<Expr> = Vec::new();
        let mut this_constraint: Option<Expr> = None;
        let rest = match self.parse_function_type_annotation_params_flow(&mut params, &mut this_constraint, false) {
            Some(x) => x,
            None => return None,
        };
        let ghost e1 = self.errors@.skip(old(self).errors@.len() as int);
        assert(self.errors@ =~= old(self).errors@ + e1);
        proof { use_type_invariant(&self.lexer); }
        if !self.eat(TokenKind::colon) {
            assert(self.errors@ =~= old(self).errors@ + e1.push(self.errors@.last()));
            return None;
        }
        let return_type = match self.parse_return_type_annotation_flow(None) {
            Some(t) => t,
            None => {
                assert(self.errors@ =~= old(self).errors@ + e1.push(self.errors@.last()));
                return None;
            },
        };
        let end = self.lexer.prev_token_end();
        Some(
            Expr { parens: 0,
                node: Node::FunctionTypeAnnotation {
                    params: list_from_vec(params),
                    this_constraint: boxed(this_constraint),
                    return_type: Box::new(return_type),
                    rest: boxed(rest),
                    type_parameters: boxed(type_params),
                },
                start,
                end,
            },
        )
    }


    /// Parse a leading `this: T` constraint inside parentheses, and the
    /// comma after it; `this?` is reported.
    fn parse_group_this(&mut self) -> (r: Option<Option<Expr>>)
        requires
            old(self).lexer@.is_fresh(),
        ensures
            ({
                let (res, errs, q) = spec_group_this(old(self).lexer@.tokens, old(self).lexer@.pos);
                &&& r == res
                &&& final(self).errors@ == old(self).errors@ + errs
                &&& final(self).lexer@ == old(self).lexer@.at(q)
                &&& final(self).options == old(self).options
            }),
            r is Some ==> final(self).lexer@.pos >= old(self).lexer@.pos,
    {
        proof { use_type_invariant(&self.lexer); }
        assert(old(self).lexer@.at(old(self).lexer@.pos) == old(self).lexer@);
        if self.check(TokenKind::rw_this) {
            let next = self.lexer.lookahead1();
            if next == Some(TokenKind::colon) {
                let (this_start, _) = self.advance();
                self.advance();
                let ta = match self.parse_type_annotation_flow(None) {
                    Some(t) => t,
                    None => {
                        assert(self.errors@ =~= old(self).errors@ + seq![self.errors@.last()]);
                        return None;
                    },
                };
                let end = self.lexer.prev_token_end();
                proof { use_type_invariant(&self.lexer); }
                self.check_and_eat(TokenKind::comma);
                assert(self.errors@ =~= old(self).errors@ + Seq::<ParseError>::empty());
                return Some(
                    Some(
                        Expr { parens: 0,
                            node: Node::FunctionTypeParam {
                                param_name: None,
                                type_annotation: Box::new(ta),
                                optional: false,
                            },
                            start: this_start,
                            end,
                        },
                    ),
                );
            } else if next == Some(TokenKind::question) {
                self.error_cur(ErrorKind::ThisConstraintOptional);
                assert(self.errors@ =~= old(self).errors@ + seq![self.errors@.last()]);
                return Some(None);
            }
        }
        assert(self.errors@ =~= old(self).errors@ + Seq::<ParseError>::empty());
        Some(None)
    }

    /// Parse the first item inside parentheses: `...` and a rest parameter
    /// (when `allow`), nothing before `)`, or a parameter. Returns whether
    /// the parentheses must be a parameter list, the rest parameter and the
    /// parameters.
    fn parse_group_first(&mut self, allow: bool) -> (r: Option<(bool, Option<Expr>, Vec<Expr>)>)
        requires
            old(self).lexer@.is_fresh(),
        ensures
            ({
                let (res, errs, q) = spec_group_first(old(self).lexer@.tokens, old(self).lexer@.pos, allow);
                &&& match r {
                    Some((f, rest, ps)) => res == Some((f, rest, ps@)) && (!f ==> ps.len() == 1),
                    None => res is None,
                }
                &&& final(self).errors@ == old(self).errors@ + errs
                &&& final(self).lexer@ == old(self).lexer@.at(q)
                &&& final(self).options == old(self).options
            }),
            r is Some ==> final(self).lexer@.pos >= old(self).lexer@.pos,
    {
        reveal(spec_group_first);
        proof { use_type_invariant(&self.lexer); }
        assert(old(self).lexer@.at(old(self).lexer@.pos) == old(self).lexer@);
        if allow && self.check(TokenKind::dotdotdot) {
            self.advance();
            proof { use_type_invariant(&self.lexer); }
            let rp = match self.parse_function_type_annotation_param_flow() {
                Some(x) => x,
                None => return None,
            };
            let params: Vec<Expr> = Vec::new();
            assert(params@ =~= Seq::<Expr>::empty());
            return Some((true, Some(rp), params));
        }
        if self.check(TokenKind::r_paren) {
            let params: Vec<Expr> = Vec::new();
            assert(params@ =~= Seq::<Expr>::empty());
            assert(self.errors@ =~= old(self).errors@ + Seq::<ParseError>::empty());
            return Some((true, None, params));
        }
        let prm = match self.parse_function_type_annotation_param_flow() {
            Some(x) => x,
            None => return None,
        };
        let named = match &prm.node {
            Node::FunctionTypeParam { param_name, optional, .. } => param_name.is_some() || *optional,
            _ => false,
        };
        let mut params: Vec<Expr> = Vec::new();
        params.push(prm);
        assert(params@ =~= seq![prm]);
        Some((named, None, params))
    }

    /// Parse more parameters inside parentheses up to the closing `)`,
    /// appending them to `params`; a `...` rest parameter, which is
    /// returned, ends them unless one was already read (`rest_seen`).
    #[verifier::rlimit(100)]
    #[verifier::spinoff_prover]
    fn parse_group_loop(&mut self, rest_seen: bool, params: &mut Vec<Expr>) -> (r: Option<Option<Expr>>)
        requires
            old(self).lexer@.is_fresh(),
        ensures
            ({
                let (res, ps, errs, q) = spec_group_loop(
                    old(self).lexer@.tokens,
                    old(self).lexer@.pos,
                    rest_seen,
                    old(params)@,
                );
                &&& r == res
                &&& final(params)@ == ps
                &&& final(self).errors@ == old(self).errors@ + errs
                &&& final(self).lexer@ == old(self).lexer@.at(q)
                &&& final(self).options == old(self).options
            }),
            r is Some ==> final(self).lexer@.pos >= old(self).lexer@.pos,
        decreases old(self).lexer@.tokens.len() - old(self).lexer@.pos,
    {
        proof { use_type_invariant(&self.lexer); }
        assert(old(self).lexer@.at(old(self).lexer@.pos) == old(self).lexer@);
        if self.check(TokenKind::r_paren) {
            assert(self.errors@ =~= old(self).errors@ + Seq::<ParseError>::empty());
            return Some(None);
        }
        let is_rest = !rest_seen && self.check_and_eat(TokenKind::dotdotdot);
        proof { use_type_invariant(&self.lexer); }
        let param = match self.parse_function_type_annotation_param_flow() {
            Some(x) => x,
            None => return None,
        };
        proof { use_type_invariant(&self.lexer); }
        if is_rest {
            self.check_and_eat(TokenKind::comma);
            return Some(Some(param));
        }
        params.push(param);
        let ghost e1 = self.errors@;
        if self.check(TokenKind::comma) {
            self.advance();
            let r = self.parse_group_loop(rest_seen, params);
            assert(self.errors@ =~= old(self).errors@ + (e1.skip(old(self).errors@.len() as int) + self.errors@.skip(e1.len() as int)));
            return r;
        }
        Some(None)
    }

    /// Parse the end of a type in parentheses or a function type that
    /// started at `start`: `)`, then, for a parameter list (`is_function`,
    /// or when `allow` and `=>` follows), `=> R`. Without a parameter list
    /// the type of the one parameter read is returned.
    #[verifier::rlimit(100)]
    #[verifier::spinoff_prover]
    fn parse_group_close(
        &mut self,
        start: usize,
        allow: bool,
        is_function: bool,
        this_constraint: Option<Expr>,
        rest: Option<Expr>,
        params: Vec<Expr>,
    ) -> (r: Option<Expr>)
        requires
            old(self).lexer@.is_fresh(),
            !is_function ==> params.len() == 1,
        ensures
            ({
                let (res, errs, q) = spec_group_close(
                    old(self).lexer@.tokens,
                    old(self).lexer@.pos,
                    start,
                    allow,
                    is_function,
                    this_constraint,
                    rest,
                    params@,
                );
                &&& r == res
                &&& final(self).errors@ == old(self).errors@ + errs
                &&& final(self).lexer@ == old(self).lexer@.at(q)
                &&& final(self).options == old(self).options
            }),
    {
        reveal(spec_group_close);
        proof { use_type_invariant(&self.lexer); }
        let mut params = params;
        let mut is_function = is_function;
        if !self.eat(TokenKind::r_paren) {
            assert(self.errors@ =~= old(self).errors@ + seq![self.errors@.last()]);
            return None;
        }
        proof { use_type_invariant(&self.lexer); }
        if is_function {
            if !self.eat(TokenKind::equalgreater) {
                assert(self.errors@ =~= old(self).errors@ + seq![self.errors@.last()]);
                return None;
            }
        } else if allow && self.check_and_eat(TokenKind::equalgreater) {
            is_function = true;
        }
        if !is_function {
            let prm = match params.pop() {
                Some(x) => x,
                None => return None,
            };
            let Expr { node, start: ps, end: pe, parens: pp } = prm;
            let ty = match node {
                Node::FunctionTypeParam { type_annotation, .. } => *type_annotation,
                n => Expr { node: n, start: ps, end: pe, parens: pp },
            };
            assert(self.errors@ =~= old(self).errors@ + Seq::<ParseError>::empty());
            return Some(ty);
        }
        proof { use_type_invariant(&self.lexer); }
        let return_type = match self.parse_return_type_annotation_flow(None) {
            Some(t) => t,
            None => {
                assert(self.errors@ =~= old(self).errors@ + seq![self.errors@.last()]);
                return None;
            },
        };
        let end = self.lexer.prev_token_end();
        assert(self.errors@ =~= old(self).errors@ + Seq::<ParseError>::empty());
        Some(
            Expr { parens: 0,
                node: Node::FunctionTypeAnnotation {
                    params: list_from_vec(params),
                    this_constraint: boxed(this_constraint),
                    return_type: Box::new(return_type),
                    rest: boxed(rest),
                    type_parameters: None,
                },
                start,
                end,
            },
        )
    }

    /// Parse the items after the first inside parentheses, when a comma
    /// follows the first (and the parentheses are a parameter list, or
    /// `allow`): more parameters, which make them a parameter list.
    fn parse_group_tail(
        &mut self,
        allow: bool,
        is_function: bool,
        rest: Option<Expr>,
        params: Vec<Expr>,
    ) -> (r: Option<(bool, Option<Expr>, Vec<Expr>)>)
        requires
            old(self).lexer@.is_fresh(),
        ensures
            ({
                let (res, errs, q) = spec_group_tail(
                    old(self).lexer@.tokens,
                    old(self).lexer@.pos,
                    allow,
                    is_function,
                    rest,
                    params@,
                );
                &&& match r {
                    Some((f, rest2, ps)) => res == Some((f, rest2, ps@)) && (!f ==> ps@ == params@ && !is_function),
                    None => res is None,
                }
                &&& final(self).errors@ == old(self).errors@ + errs
                &&& final(self).lexer@ == old(self).lexer@.at(q)
                &&& final(self).options == old(self).options
            }),
    {
        reveal(spec_group_tail);
        proof { use_type_invariant(&self.lexer); }
        assert(old(self).lexer@.at(old(self).lexer@.pos) == old(self).lexer@);
        let mut params = params;
        if (is_function || allow) && self.check(TokenKind::comma) {
            self.advance();
            proof { use_type_invariant(&self.lexer); }
            let rest2 = match self.parse_group_loop(rest.is_some(), &mut params) {
                Some(x) => x,
                None => return None,
            };
            if rest2.is_some() {
                return Some((true, rest2, params));
            }
            return Some((true, rest, params));
        }
        assert(self.errors@ =~= old(self).errors@ + Seq::<ParseError>::empty());
        Some((is_function, rest, params))
    }

    /// Parse a type in parentheses or a function type that started at
    /// `start`, after its `this` constraint `this_constraint`.
    fn parse_group_body(&mut self, start: usize, allow: bool, this_constraint: Option<Expr>) -> (r: Option<Expr>)
        requires
            old(self).lexer@.is_fresh(),
        ensures
            ({
                let (res, errs, q) = spec_group_body(
                    old(self).lexer@.tokens,
                    old(self).lexer@.pos,
                    start,
                    allow,
                    this_constraint,
                );
                &&& r == res
                &&& final(self).errors@ == old(self).errors@ + errs
                &&& final(self).lexer@ == old(self).lexer@.at(q)
                &&& final(self).options == old(self).options
            }),
    {
        proof { use_type_invariant(&self.lexer); }
        let (f1, rest1, params) = match self.parse_group_first(allow) {
            Some(x) => x,
            None => return None,
        };
        let ghost e1 = self.errors@.skip(old(self).errors@.len() as int);
        assert(self.errors@ =~= old(self).errors@ + e1);
        proof { use_type_invariant(&self.lexer); }
        let (f2, rest, params) = match self.parse_group_tail(allow, f1, rest1, params) {
            Some(x) => x,
            None => {
                assert(self.errors@ =~= old(self).errors@ + (e1 + self.errors@.skip((old(self).errors@.len() + e1.len()) as int)));
                return None;
            },
        };
        let ghost e12 = self.errors@.skip(old(self).errors@.len() as int);
        assert(self.errors@ =~= old(self).errors@ + e12);
        proof { use_type_invariant(&self.lexer); }
        let r = self.parse_group_close(start, allow, f2, this_constraint, rest, params);
        assert(self.errors@ =~= old(self).errors@ + (e12 + self.errors@.skip((old(self).errors@.len() + e12.len()) as int)));
        r
    }

    /// Parse a type in parentheses or a function type, with the current
    /// token at `(`. The parentheses hold a function type's parameters when
    /// a parameter has a name or is optional, on `this: T` or `()`, and,
    /// where anonymous function types are allowed, on a leading `...`, a
    /// comma or a `=>` after the `)`; otherwise they hold one type, which
    /// is returned.
    pub fn parse_function_or_group_type_annotation_flow(&mut self) -> (r: Option<Expr>)
        requires
            old(self).lexer@.is_fresh(),
            old(self).lexer@.kind == TokenKind::l_paren,
        ensures
            ({
                let (res, errs, q) = spec_group(
                    old(self).lexer@.tokens,
                    old(self).lexer@.pos,
                    old(self).allow_anon_function_type,
                );
                &&& r == res
                &&& final(self).errors@ == old(self).errors@ + errs
                &&& final(self).lexer@ == old(self).lexer@.at(q)
                &&& final(self).options == old(self).options
            }),
    {
        proof { use_type_invariant(&self.lexer); }
        let allow = self.allow_anon_function_type;
        let (start, _) = self.advance();
        proof { use_type_invariant(&self.lexer); }
        let this_constraint = match self.parse_group_this() {
            Some(t) => t,
            None => return None,
        };
        let ghost e0 = self.errors@.skip(old(self).errors@.len() as int);
        assert(self.errors@ =~= old(self).errors@ + e0);
        proof { use_type_invariant(&self.lexer); }
        let r = self.parse_group_body(start, allow, this_constraint);
        assert(self.errors@ =~= old(self).errors@ + (e0 + self.errors@.skip((old(self).errors@.len() + e0.len()) as int)));
        r
    }


    /// Parse a predicate, with the current token at `%checks`: the
    /// inferred predicate `%checks`. A declared predicate `%checks(expr)`
    /// is reported as unsupported at its `(`.
    pub fn parse_predicate_flow(&mut self) -> (r: Option<Expr>)
        requires
            old(self).lexer@.is_fresh(),
            old(self).lexer@.is_name(spec_checks_name()),
        ensures
            ({
                let (res, q) = spec_predicate_flow(old(self).lexer@.tokens, old(self).lexer@.pos);
                &&& final(self).options == old(self).options
                &&& final(self).lexer@ == old(self).lexer@.at(q)
                &&& match res {
                    Ok(e) => r == Some(e) && final(self).errors@ == old(self).errors@,
                    Err(e) => r is None && final(self).errors@ == old(self).errors@.push(e),
                }
            }),
            r is Some ==> final(self).lexer@.pos > old(self).lexer@.pos,
    {
        proof { use_type_invariant(&self.lexer); }
        let (start, end) = self.advance();
        proof { use_type_invariant(&self.lexer); }
        if self.check(TokenKind::l_paren) {
            self.error_cur(ErrorKind::Unsupported(UnsupportedSyntax::DeclaredPredicate));
            return None;
        }
        Some(Expr { parens: 0, node: Node::InferredPredicate, start, end })
    }

}

} // verus!
