//! Flow object types `{ ... }` and `{| ... |}` and their members:
//! properties, methods, getters and setters, indexers, mapped type members,
//! call properties, internal slots and spreads.

use vstd::prelude::*;

use crate::js::expressions::{boxed, spec_boxed, spec_prev_end, Expr, Node, NodeList};
use crate::js::expressions::spec_property_name;
use crate::js::flow::function_types::{
    lemma_methodish_failure_reported, list_from_vec, spec_ident_at, spec_list_of, spec_methodish, spec_next_kind, spec_reparse_as_identifier, spec_type_name_token,
};
use crate::js::flow::params::{spec_variance_at, VarianceKind};
use crate::js::flow::{can_follow_variance_keyword_flow, spec_can_follow_variance_keyword_flow};
use crate::js::flow::params::spec_type_params;
use crate::js::flow::declarations::err_at;
use crate::js::flow::types::spec_type;
use crate::js::{ErrorKind, JSParserImpl, ParseError};
use crate::lexer::{is_name_at, step, Token};
use crate::token_kinds::{is_reserved_word, spec_is_reserved_word, TokenKind};

verus! {

/// Whether an object type property is a plain one or an accessor.
#[derive(Clone, Copy, Debug, PartialEq, Eq, Structural)]
pub enum PropertyKind {
    Init,
    Getter,
    Setter,
}

/// The optionality sigil of a mapped type member: `+?`, `-?` or `?`.
#[derive(Clone, Copy, Debug, PartialEq, Eq, Structural)]
pub enum MappedTypeOptional {
    PlusOptional,
    MinusOptional,
    Optional,
}

/// A plain property of an object type whose key `key` (with the variance,
/// `static` and `proto` modifiers given) started at `start`, from `p`,
/// where the token is `?` or `:`: an optional `?`, then `: value`.
#[verifier::opaque]
pub open spec fn spec_type_property(
    toks: Seq<Token>,
    p: int,
    start: usize,
    variance: Option<Expr>,
    is_static: bool,
    proto: bool,
    key: Expr,
) -> (Result<Expr, ParseError>, int) {
    let optional = toks[p].kind == TokenKind::question;
    let q = if optional {
        step(toks, p)
    } else {
        p
    };
    if toks[q].kind != TokenKind::colon {
        (Err(err_at(ErrorKind::Expected(TokenKind::colon), toks[q])), q)
    } else {
        match spec_type(toks, step(toks, q)) {
            (Err(e), r) => (Err(e), r),
            (Ok(value), r) => (Ok(Expr { parens: 0,
                node: Node::ObjectTypeProperty {
                    key: Box::new(key),
                    value: Box::new(value),
                    method: false,
                    property_kind: PropertyKind::Init,
                    optional,
                    is_static,
                    proto,
                    variance: spec_boxed(variance),
                },
                start,
                end: spec_prev_end(toks, r),
            }), r),
        }
    }
}

/// The object type property node.
pub open spec fn spec_property_node(
    key: Expr,
    value: Expr,
    method: bool,
    property_kind: PropertyKind,
    is_static: bool,
    start: usize,
    end: usize,
) -> Expr {
    Expr { parens: 0,
        node: Node::ObjectTypeProperty {
            key: Box::new(key),
            value: Box::new(value),
            method,
            property_kind,
            optional: false,
            is_static,
            proto: false,
            variance: None,
        },
        start,
        end,
    }
}

/// A method `key<T>(params): R` of an object type from `p`, where the
/// token is `<` or `(`; the key `key` started at `start`.
#[verifier::opaque]
pub open spec fn spec_method_property(toks: Seq<Token>, p: int, start: usize, is_static: bool, key: Expr) -> (Option<Expr>, Seq<ParseError>, int) {
    let (tp, q) = if toks[p].kind == TokenKind::less {
        match spec_type_params(toks, p) {
            (Err(e), r) => (Err(e), r),
            (Ok(tp), r) => (Ok(Some(tp)), r),
        }
    } else {
        (Ok(None), p)
    };
    match tp {
        Err(e) => (None, seq![e], q),
        Ok(tp) => match spec_methodish(toks, q, start, tp) {
            (None, e, r) => (None, e, r),
            (Some(v), e, r) => (
                Some(spec_property_node(key, v, true, PropertyKind::Init, is_static, start, spec_prev_end(toks, r))),
                e,
                r,
            ),
        },
    }
}

/// Whether the node list has exactly one node.
pub open spec fn spec_is_single(l: NodeList) -> bool {
    match l {
        NodeList::Cons(_, rest) => *rest == NodeList::Nil,
        NodeList::Nil => false,
    }
}

/// The diagnostics on the signature `value` of a getter (`is_getter`) or a
/// setter: a getter with parameters, a setter without exactly one, and a
/// `this` constraint on either.
pub open spec fn spec_accessor_errors(value: Expr, is_getter: bool) -> Seq<ParseError> {
    match value.node {
        Node::FunctionTypeAnnotation { params, this_constraint, .. } => {
            let e1 = if is_getter && params != NodeList::Nil {
                seq![ParseError { kind: ErrorKind::GetterParameters, start: value.start, end: value.end }]
            } else if !is_getter && !spec_is_single(params) {
                seq![ParseError { kind: ErrorKind::SetterParameters, start: value.start, end: value.end }]
            } else {
                Seq::empty()
            };
            let e2 = match this_constraint {
                Some(t) => seq![ParseError { kind: ErrorKind::AccessorThisConstraint, start: t.start, end: t.end }],
                None => Seq::empty(),
            };
            e1 + e2
        },
        _ => Seq::empty(),
    }
}

/// A getter (`is_getter`) or setter `get key(params): R` of an object type
/// from `p`, where its parameter list starts; the member started at
/// `start`.
#[verifier::opaque]
pub open spec fn spec_get_or_set(toks: Seq<Token>, p: int, start: usize, is_static: bool, is_getter: bool, key: Expr) -> (Option<Expr>, Seq<ParseError>, int) {
    match spec_methodish(toks, p, start, None) {
        (None, e, r) => (None, e, r),
        (Some(v), e, r) => {
            let kind = if is_getter {
                PropertyKind::Getter
            } else {
                PropertyKind::Setter
            };
            (
                Some(spec_property_node(key, v, false, kind, is_static, start, spec_prev_end(toks, r))),
                e + spec_accessor_errors(v, is_getter),
                r,
            )
        },
    }
}

/// A call property `<T>(params): R` of an object type at `p`, where the
/// token is `<` or `(`.
#[verifier::opaque]
pub open spec fn spec_call_property(toks: Seq<Token>, p: int, start: usize, is_static: bool) -> (Option<Expr>, Seq<ParseError>, int) {
    let (tp, q) = if toks[p].kind == TokenKind::less {
        match spec_type_params(toks, p) {
            (Err(e), r) => (Err(e), r),
            (Ok(tp), r) => (Ok(Some(tp)), r),
        }
    } else {
        (Ok(None), p)
    };
    match tp {
        Err(e) => (None, seq![e], q),
        Ok(tp) => match spec_methodish(toks, q, start, tp) {
            (None, e, r) => (None, e, r),
            (Some(v), e, r) => (
                Some(Expr { parens: 0,
                    node: Node::ObjectTypeCallProperty { value: Box::new(v), is_static },
                    start,
                    end: spec_prev_end(toks, r),
                }),
                e,
                r,
            ),
        },
    }
}

/// The rest of an indexer of an object type whose bracket contents began
/// with the type `left`, from `p`: `: key` when `left` names the indexer
/// (it must then be a bare name), then `]`, `:` and the value type.
#[verifier::opaque]
pub open spec fn spec_indexer(
    toks: Seq<Token>,
    p: int,
    start: usize,
    left: Expr,
    variance: Option<Expr>,
    is_static: bool,
) -> (Result<Expr, ParseError>, int) {
    let (kr, q) = if toks[p].kind == TokenKind::colon {
        match spec_reparse_as_identifier(left) {
            Err(e) => (Err(e), step(toks, p)),
            Ok(id) => match spec_type(toks, step(toks, p)) {
                (Err(e), r) => (Err(e), r),
                (Ok(key), r) => (Ok((Some(id), key)), r),
            },
        }
    } else {
        (Ok((None, left)), p)
    };
    match kr {
        Err(e) => (Err(e), q),
        Ok((id, key)) => if toks[q].kind != TokenKind::r_square {
            (Err(err_at(ErrorKind::Expected(TokenKind::r_square), toks[q])), q)
        } else {
            let q1 = step(toks, q);
            if toks[q1].kind != TokenKind::colon {
                (Err(err_at(ErrorKind::Expected(TokenKind::colon), toks[q1])), q1)
            } else {
                match spec_type(toks, step(toks, q1)) {
                    (Err(e), r) => (Err(e), r),
                    (Ok(value), r) => (Ok(Expr { parens: 0,
                        node: Node::ObjectTypeIndexer {
                            key_name: spec_boxed(id),
                            key: Box::new(key),
                            value: Box::new(value),
                            is_static,
                            variance: spec_boxed(variance),
                        },
                        start,
                        end: spec_prev_end(toks, r),
                    }), r),
                }
            }
        },
    }
}

/// The optionality sigil of a mapped type member at `q`: `+?`, `-?`, `?`
/// or none.
pub open spec fn spec_mapped_optional(toks: Seq<Token>, q: int) -> (Result<Option<MappedTypeOptional>, ParseError>, int) {
    if toks[q].kind == TokenKind::plus || toks[q].kind == TokenKind::minus {
        let s = step(toks, q);
        if toks[s].kind != TokenKind::question {
            (Err(err_at(ErrorKind::Expected(TokenKind::question), toks[s])), s)
        } else if toks[q].kind == TokenKind::plus {
            (Ok(Some(MappedTypeOptional::PlusOptional)), step(toks, s))
        } else {
            (Ok(Some(MappedTypeOptional::MinusOptional)), step(toks, s))
        }
    } else if toks[q].kind == TokenKind::question {
        (Ok(Some(MappedTypeOptional::Optional)), step(toks, q))
    } else {
        (Ok(None), q)
    }
}

/// The rest of a mapped type member `[K in source]: T` of an object type,
/// whose key `left` (it must be a bare name) was read with the `in` after
/// it, from `p`: the source type, `]`, the optionality sigil, `:` and the
/// property type.
#[verifier::opaque]
pub open spec fn spec_mapped_property(toks: Seq<Token>, p: int, start: usize, left: Expr, variance: Option<Expr>) -> (Result<Expr, ParseError>, int) {
    match spec_type_name_token(left) {
        None => (Err(ParseError { kind: ErrorKind::Expected(TokenKind::identifier), start: left.start, end: left.end }), p),
        Some(i) => {
            let key_tparam = Expr { parens: 0,
                node: Node::TypeParameter {
                    name: i,
                    is_const: false,
                    bound: None,
                    variance: None,
                    initializer: None,
                    uses_extends_bound: false,
                },
                start: left.start,
                end: left.end,
            };
            match spec_type(toks, p) {
                (Err(e), r) => (Err(e), r),
                (Ok(source), r) => if toks[r].kind != TokenKind::r_square {
                    (Err(err_at(ErrorKind::Expected(TokenKind::r_square), toks[r])), r)
                } else {
                    match spec_mapped_optional(toks, step(toks, r)) {
                        (Err(e), r2) => (Err(e), r2),
                        (Ok(opt), r2) => if toks[r2].kind != TokenKind::colon {
                            (Err(err_at(ErrorKind::Expected(TokenKind::colon), toks[r2])), r2)
                        } else {
                            match spec_type(toks, step(toks, r2)) {
                                (Err(e), r3) => (Err(e), r3),
                                (Ok(prop), r3) => (Ok(Expr { parens: 0,
                                    node: Node::ObjectTypeMappedTypeProperty {
                                        key_tparam: Box::new(key_tparam),
                                        prop_type: Box::new(prop),
                                        source_type: Box::new(source),
                                        variance: spec_boxed(variance),
                                        optionality: opt,
                                    },
                                    start,
                                    end: spec_prev_end(toks, r3),
                                }), r3),
                            }
                        },
                    }
                },
            }
        },
    }
}

/// The list of an object type that a member goes to.
#[derive(Clone, Copy, Debug, PartialEq, Eq, Structural)]
pub enum ObjectMember {
    Property,
    Indexer,
    CallProperty,
    InternalSlot,
}

/// The name `proto`.
pub open spec fn spec_proto_name() -> Seq<u8> {
    seq![112u8, 114u8, 111u8, 116u8, 111u8]
}

/// The name `static`.
pub open spec fn spec_static_name() -> Seq<u8> {
    seq![115u8, 116u8, 97u8, 116u8, 105u8, 99u8]
}

/// The name `readonly`.
pub open spec fn spec_readonly_name() -> Seq<u8> {
    seq![114u8, 101u8, 97u8, 100u8, 111u8, 110u8, 108u8, 121u8]
}

/// The name `writeonly`.
pub open spec fn spec_writeonly_name() -> Seq<u8> {
    seq![119u8, 114u8, 105u8, 116u8, 101u8, 111u8, 110u8, 108u8, 121u8]
}

/// The name `get`.
pub open spec fn spec_get_name() -> Seq<u8> {
    seq![103u8, 101u8, 116u8]
}

/// The name `set`.
pub open spec fn spec_set_name() -> Seq<u8> {
    seq![115u8, 101u8, 116u8]
}

/// The member `res`, if any, sent to the list `k`.
pub open spec fn spec_to_list(res: Option<Expr>, k: ObjectMember) -> Option<(ObjectMember, Expr)> {
    match res {
        Some(e) => Some((k, e)),
        None => None,
    }
}

/// The member of `res` as a sequence, when it goes to the list `k`.
pub open spec fn spec_in_list(res: Option<(ObjectMember, Expr)>, k: ObjectMember) -> Seq<Expr> {
    match res {
        Some((k2, e)) => if k2 == k {
            seq![e]
        } else {
            Seq::empty()
        },
        None => Seq::empty(),
    }
}

/// A diagnostic of kind `kind` over the variance `variance`, if there is
/// one.
pub open spec fn spec_variance_err(variance: Option<Expr>, kind: ErrorKind) -> Seq<ParseError> {
    match variance {
        Some(v) => seq![ParseError { kind, start: v.start, end: v.end }],
        None => Seq::empty(),
    }
}

/// A diagnostic of kind `kind` over `[start, end)` when `c` holds.
pub open spec fn spec_err_if(c: bool, kind: ErrorKind, start: usize, end: usize) -> Seq<ParseError> {
    if c {
        seq![ParseError { kind, start, end }]
    } else {
        Seq::empty()
    }
}

/// The modifiers of an object type member at `p`: `proto`, or else
/// `static` (the reserved word or the name); then a variance: `+`, `-`,
/// or `readonly` / `writeonly` when what follows can be a key. Gives
/// whether `proto` and `static` were read, the variance and the position
/// after them.
#[verifier::opaque]
pub open spec fn spec_member_modifiers(toks: Seq<Token>, p: int) -> (bool, bool, Option<Expr>, int) {
    let proto = is_name_at(toks, p, spec_proto_name());
    let p1 = if proto {
        step(toks, p)
    } else {
        p
    };
    let is_static = !proto && (toks[p1].kind == TokenKind::rw_static || is_name_at(toks, p1, spec_static_name()));
    let p2 = if is_static {
        step(toks, p1)
    } else {
        p1
    };
    let follows = spec_can_follow_variance_keyword_flow(spec_next_kind(toks, p2));
    let variance = if toks[p2].kind == TokenKind::plus {
        Some(spec_variance_at(toks, p2, VarianceKind::Plus))
    } else if toks[p2].kind == TokenKind::minus {
        Some(spec_variance_at(toks, p2, VarianceKind::Minus))
    } else if is_name_at(toks, p2, spec_readonly_name()) && follows {
        Some(spec_variance_at(toks, p2, VarianceKind::Readonly))
    } else if is_name_at(toks, p2, spec_writeonly_name()) && follows {
        Some(spec_variance_at(toks, p2, VarianceKind::Writeonly))
    } else {
        None
    };
    (proto, is_static, variance, if variance is Some {
        step(toks, p2)
    } else {
        p2
    })
}

/// Type parameters when `<` is at `q`, then a method-like signature, for
/// a member that started at `start`.
pub open spec fn spec_generic_methodish(toks: Seq<Token>, q: int, start: usize) -> (Option<Expr>, Seq<ParseError>, int) {
    if toks[q].kind == TokenKind::less {
        match spec_type_params(toks, q) {
            (Err(e), r) => (None, seq![e], r),
            (Ok(tp), r) => spec_methodish(toks, r, start, Some(tp)),
        }
    } else {
        spec_methodish(toks, q, start, None)
    }
}

/// The internal slot node.
pub open spec fn spec_slot_node(
    id: Expr,
    value: Expr,
    optional: bool,
    is_static: bool,
    method: bool,
    start: usize,
    end: usize,
) -> Expr {
    Expr { parens: 0,
        node: Node::ObjectTypeInternalSlot { id: Box::new(id), value: Box::new(value), optional, is_static, method },
        start,
        end,
    }
}

/// An internal slot of an object type that started at `start`, from `q`
/// after its `[[`: the name, `]]`, then a method-like signature or
/// `?: T` / `: T`.
#[verifier::opaque]
pub open spec fn spec_internal_slot(toks: Seq<Token>, q: int, start: usize, is_static: bool) -> (Option<Expr>, Seq<ParseError>, int) {
    if !(toks[q].kind == TokenKind::identifier || spec_is_reserved_word(toks[q].kind)) {
        (None, seq![err_at(ErrorKind::Expected(TokenKind::identifier), toks[q])], q)
    } else {
        let id = spec_ident_at(toks, q);
        let q1 = step(toks, q);
        let q2 = step(toks, q1);
        let q3 = step(toks, q2);
        if toks[q1].kind != TokenKind::r_square {
            (None, seq![err_at(ErrorKind::Expected(TokenKind::r_square), toks[q1])], q1)
        } else if toks[q2].kind != TokenKind::r_square {
            (None, seq![err_at(ErrorKind::Expected(TokenKind::r_square), toks[q2])], q2)
        } else if toks[q3].kind == TokenKind::less || toks[q3].kind == TokenKind::l_paren {
            match spec_generic_methodish(toks, q3, start) {
                (None, e, r) => (None, e, r),
                (Some(v), e, r) => (Some(spec_slot_node(id, v, false, is_static, true, start, spec_prev_end(toks, r))), e, r),
            }
        } else {
            let optional = toks[q3].kind == TokenKind::question;
            let q4 = if optional {
                step(toks, q3)
            } else {
                q3
            };
            if toks[q4].kind != TokenKind::colon {
                (None, seq![err_at(ErrorKind::Expected(TokenKind::colon), toks[q4])], q4)
            } else {
                match spec_type(toks, step(toks, q4)) {
                    (Err(e), r) => (None, seq![e], r),
                    (Ok(v), r) => (
                        Some(spec_slot_node(id, v, optional, is_static, false, start, spec_prev_end(toks, r))),
                        Seq::empty(),
                        r,
                    ),
                }
            }
        }
    }
}

/// An object type member that starts with `[` at `p3` (the member began
/// with a token over `[ss, se)`, its modifiers read): an internal slot
/// `[[id]]`, a mapped type member `[K in T]` or an indexer.
#[verifier::opaque]
pub open spec fn spec_bracket_member(
    toks: Seq<Token>,
    p3: int,
    ss: usize,
    se: usize,
    proto: bool,
    is_static: bool,
    variance: Option<Expr>,
    allow_static: bool,
) -> (Option<(ObjectMember, Expr)>, Seq<ParseError>, int) {
    let start = ss;
    let q = step(toks, p3);
    let e_mods = spec_err_if(proto, ErrorKind::InvalidProtoModifier, ss, se) + spec_err_if(
        is_static && !allow_static,
        ErrorKind::InvalidStaticModifier,
        ss,
        se,
    );
    if toks[q].kind == TokenKind::l_square {
        let (res, e, r) = spec_internal_slot(toks, step(toks, q), start, is_static);
        (spec_to_list(res, ObjectMember::InternalSlot), spec_variance_err(variance, ErrorKind::UnexpectedVarianceSigil) + e_mods + e, r)
    } else {
        match spec_type(toks, q) {
            (Err(e), r) => (None, seq![e], r),
            (Ok(left), r) => {
                let (res, k, r2) = if toks[r].kind == TokenKind::rw_in {
                    let (x, r2) = spec_mapped_property(toks, step(toks, r), start, left, variance);
                    (x, ObjectMember::Property, r2)
                } else {
                    let (x, r2) = spec_indexer(toks, r, start, left, variance, is_static);
                    (x, ObjectMember::Indexer, r2)
                };
                match res {
                    Err(e) => (None, seq![e], r2),
                    Ok(m) => (Some((k, m)), e_mods, r2),
                }
            },
        }
    }
}

/// The rest of a getter (`is_getter`) or setter of an object type from
/// `r`, after `get` or `set` (the member began over `[ss, se)`, its
/// modifiers read): the property name and the signature.
#[verifier::opaque]
pub open spec fn spec_accessor_member(
    toks: Seq<Token>,
    r: int,
    ss: usize,
    se: usize,
    proto: bool,
    is_static: bool,
    variance: Option<Expr>,
    allow_static: bool,
    is_getter: bool,
) -> (Option<(ObjectMember, Expr)>, Seq<ParseError>, int) {
    let e0 = spec_variance_err(variance, ErrorKind::AccessorVariance) + spec_err_if(
        proto,
        ErrorKind::InvalidProtoModifier,
        ss,
        se,
    ) + spec_err_if(is_static && !allow_static, ErrorKind::InvalidStaticModifier, ss, se);
    match spec_property_name(toks, r) {
        (Err(e), r2) => (None, e0.push(e), r2),
        (Ok(key2), r2) => {
            let (res, e, r3) = spec_get_or_set(toks, r2, ss, is_static, is_getter, key2);
            (spec_to_list(res, ObjectMember::Property), e0 + e, r3)
        },
    }
}

/// An object type member that starts with a property name at `p3` (the
/// member began with a token over `[ss, se)`, its modifiers read): a
/// method, a plain property, or a getter or setter (`get` or `set` and
/// another name).
#[verifier::opaque]
pub open spec fn spec_named_member(
    toks: Seq<Token>,
    p3: int,
    ss: usize,
    se: usize,
    proto: bool,
    is_static: bool,
    variance: Option<Expr>,
    allow_proto: bool,
    allow_static: bool,
) -> (Option<(ObjectMember, Expr)>, Seq<ParseError>, int) {
    let start = ss;
    let bad_static = spec_err_if(is_static && !allow_static, ErrorKind::InvalidStaticModifier, ss, se);
    match spec_property_name(toks, p3) {
        (Err(e), r) => (None, seq![e], r),
        (Ok(key), r) => if toks[r].kind == TokenKind::less || toks[r].kind == TokenKind::l_paren {
            let e0 = spec_variance_err(variance, ErrorKind::UnexpectedVarianceSigil) + spec_err_if(
                proto,
                ErrorKind::InvalidProtoModifier,
                ss,
                se,
            ) + bad_static;
            let (res, e, r2) = spec_method_property(toks, r, start, is_static, key);
            (spec_to_list(res, ObjectMember::Property), e0 + e, r2)
        } else if toks[r].kind == TokenKind::colon || toks[r].kind == TokenKind::question {
            let e0 = spec_err_if(proto && !allow_proto, ErrorKind::InvalidProtoModifier, ss, se) + bad_static;
            match spec_type_property(toks, r, start, variance, is_static, proto, key) {
                (Err(e), r2) => (None, e0.push(e), r2),
                (Ok(m), r2) => (Some((ObjectMember::Property, m)), e0, r2),
            }
        } else if is_name_at(toks, p3, spec_get_name()) || is_name_at(toks, p3, spec_set_name()) {
            spec_accessor_member(toks, r, ss, se, proto, is_static, variance, allow_static, is_name_at(toks, p3, spec_get_name()))
        } else {
            (None, seq![err_at(ErrorKind::ExpectedEither(TokenKind::colon, TokenKind::question), toks[r])], r)
        },
    }
}

/// An object type member at `p` and the list it goes to: after its
/// modifiers, a bracketed member, a method or call property, a property
/// named `static` or `proto`, or a member with a property name. `proto`
/// is a modifier only where `allow_proto`, and `static` only where
/// `allow_static`; where they are not, a method named by them is read.
#[verifier::opaque]
pub open spec fn spec_object_member(toks: Seq<Token>, p: int, allow_proto: bool, allow_static: bool) -> (
    Option<(ObjectMember, Expr)>,
    Seq<ParseError>,
    int,
) {
    let s = toks[p];
    let start = s.start;
    let (proto, is_static, variance, p3) = spec_member_modifiers(toks, p);
    let k = toks[p3].kind;
    if k == TokenKind::l_square {
        spec_bracket_member(toks, p3, s.start, s.end, proto, is_static, variance, allow_static)
    } else if k == TokenKind::less || k == TokenKind::l_paren {
        if (is_static && !allow_static) || (proto && !allow_proto) {
            let (res, e, r) = spec_method_property(toks, p3, start, false, spec_ident_at(toks, p));
            (spec_to_list(res, ObjectMember::Property), spec_variance_err(variance, ErrorKind::UnexpectedVarianceSigil) + e, r)
        } else {
            let e0 = spec_variance_err(variance, ErrorKind::CallPropertyVariance) + spec_err_if(
                proto,
                ErrorKind::InvalidProtoModifier,
                s.start,
                s.end,
            );
            let (res, e, r) = spec_call_property(toks, p3, start, is_static);
            (spec_to_list(res, ObjectMember::CallProperty), e0 + e, r)
        }
    } else if (is_static || proto) && (k == TokenKind::colon || k == TokenKind::question) {
        let e0 = spec_variance_err(variance, ErrorKind::UnexpectedVarianceSigil);
        match spec_type_property(toks, p3, start, variance, false, false, spec_ident_at(toks, p)) {
            (Err(e), r) => (None, e0.push(e), r),
            (Ok(m), r) => (Some((ObjectMember::Property, m)), e0, r),
        }
    } else {
        spec_named_member(toks, p3, s.start, s.end, proto, is_static, variance, allow_proto, allow_static)
    }
}

/// The members of an object type read so far, by list.
pub ghost struct ObjectTypeMembers {
    pub properties: Seq<Expr>,
    pub indexers: Seq<Expr>,
    pub call_properties: Seq<Expr>,
    pub internal_slots: Seq<Expr>,
}

/// The members `m` with the member of `res`, if any, added to its list.
pub open spec fn spec_add_member(m: ObjectTypeMembers, res: Option<(ObjectMember, Expr)>) -> ObjectTypeMembers {
    ObjectTypeMembers {
        properties: m.properties + spec_in_list(res, ObjectMember::Property),
        indexers: m.indexers + spec_in_list(res, ObjectMember::Indexer),
        call_properties: m.call_properties + spec_in_list(res, ObjectMember::CallProperty),
        internal_slots: m.internal_slots + spec_in_list(res, ObjectMember::InternalSlot),
    }
}

/// Whether `k` closes an object type.
pub open spec fn spec_closes_object(k: TokenKind) -> bool {
    k == TokenKind::r_brace || k == TokenKind::piper_brace
}

/// Whether `k` separates the members of an object type.
pub open spec fn spec_separates_members(k: TokenKind) -> bool {
    k == TokenKind::comma || k == TokenKind::semi
}

/// A spread `...T` at `q`, where the token is `...`, in an object type
/// that allows one when `allow_spread` (otherwise it is reported where it
/// starts, and read).
pub open spec fn spec_spread_member(toks: Seq<Token>, q: int, allow_spread: bool) -> (Option<(ObjectMember, Expr)>, Seq<ParseError>, int) {
    let start = toks[q].start;
    let e0 = if !allow_spread {
        seq![ParseError { kind: ErrorKind::SpreadOutsideObjectType, start, end: start }]
    } else {
        Seq::empty()
    };
    match spec_type(toks, step(toks, q)) {
        (Err(e), r) => (None, e0.push(e), r),
        (Ok(t), r) => (Some((ObjectMember::Property, Expr { parens: 0,
            node: Node::ObjectTypeSpreadProperty { argument: Box::new(t) },
            start,
            end: spec_prev_end(toks, r),
        })), e0, r),
    }
}

/// The members of an object type from `q` up to its closing `}` or `|}`
/// (excluded), added to `m`: members and spreads, separated by `,` or `;`;
/// a `...` followed by a separator or the closing token makes the type
/// inexact and ends the members. Gives whether the members were read, the
/// members, whether the type is inexact, the diagnostics and the position
/// after.
pub open spec fn spec_object_members(
    toks: Seq<Token>,
    q: int,
    allow_proto: bool,
    allow_static: bool,
    allow_spread: bool,
    m: ObjectTypeMembers,
) -> (bool, ObjectTypeMembers, bool, Seq<ParseError>, int)
    decreases toks.len() - q,
{
    if !(0 <= q < toks.len()) || spec_closes_object(toks[q].kind) {
        (true, m, false, Seq::empty(), q)
    } else {
        let q1 = step(toks, q);
        let spread = toks[q].kind == TokenKind::dotdotdot;
        if spread && spec_separates_members(toks[q1].kind) {
            (true, m, true, Seq::empty(), step(toks, q1))
        } else if spread && spec_closes_object(toks[q1].kind) {
            (true, m, true, Seq::empty(), q1)
        } else {
            let (item, e, r) = if spread {
                spec_spread_member(toks, q, allow_spread)
            } else {
                spec_object_member(toks, q, allow_proto, allow_static)
            };
            match item {
                None => (false, m, false, e, r),
                Some(x) => {
                    let m2 = spec_add_member(m, Some(x));
                    if spec_separates_members(toks[r].kind) && q < r < toks.len() {
                        let (ok, m3, inexact, e2, s) = spec_object_members(
                            toks,
                            step(toks, r),
                            allow_proto,
                            allow_static,
                            allow_spread,
                            m2,
                        );
                        (ok, m3, inexact, e + e2, s)
                    } else if spec_closes_object(toks[r].kind) {
                        (true, m2, false, e, r)
                    } else {
                        (false, m2, false, e.push(err_at(ErrorKind::ExpectedPropertySeparator, toks[r])), r)
                    }
                },
            }
        }
    }
}

/// No members.
pub open spec fn spec_no_members() -> ObjectTypeMembers {
    ObjectTypeMembers {
        properties: Seq::empty(),
        indexers: Seq::empty(),
        call_properties: Seq::empty(),
        internal_slots: Seq::empty(),
    }
}

/// An object type at `p`, where the token is `{` or `{|` (an exact object
/// type, closed by `|}`): its members, then the closing token. The
/// inexact `...` in an exact object type is reported where the type starts.
pub open spec fn spec_object_type(toks: Seq<Token>, p: int, allow_proto: bool, allow_static: bool, allow_spread: bool) -> (
    Option<Expr>,
    Seq<ParseError>,
    int,
) {
    let exact = toks[p].kind == TokenKind::l_bracepipe;
    let start = toks[p].start;
    let (ok, m, inexact, e, r) = spec_object_members(
        toks,
        step(toks, p),
        allow_proto,
        allow_static,
        allow_spread,
        spec_no_members(),
    );
    if !ok {
        (None, e, r)
    } else {
        let e2 = e + if exact && inexact {
            seq![ParseError { kind: ErrorKind::InexactInExactObject, start, end: start }]
        } else {
            Seq::empty()
        };
        let close = if exact {
            TokenKind::piper_brace
        } else {
            TokenKind::r_brace
        };
        if toks[r].kind != close {
            (None, e2.push(err_at(ErrorKind::Expected(close), toks[r])), r)
        } else {
            (Some(Expr { parens: 0,
                node: Node::ObjectTypeAnnotation {
                    properties: spec_list_of(m.properties),
                    indexers: spec_list_of(m.indexers),
                    call_properties: spec_list_of(m.call_properties),
                    internal_slots: spec_list_of(m.internal_slots),
                    inexact,
                    exact,
                },
                start,
                end: toks[r].end,
            }), e2, step(toks, r))
        }
    }
}

/// A method that is not read is reported.
proof fn lemma_method_failure_reported(toks: Seq<Token>, p: int, start: usize, is_static: bool, key: Expr)
    ensures
        spec_method_property(toks, p, start, is_static, key).0 is None ==> spec_method_property(
            toks,
            p,
            start,
            is_static,
            key,
        ).1.len() > 0,
{
    reveal(spec_method_property);
    if toks[p].kind == TokenKind::less {
        match spec_type_params(toks, p) {
            (Ok(tp), r) => lemma_methodish_failure_reported(toks, r, start, Some(tp)),
            _ => {},
        }
    } else {
        lemma_methodish_failure_reported(toks, p, start, None);
    }
}

/// A call property that is not read is reported.
proof fn lemma_call_failure_reported(toks: Seq<Token>, p: int, start: usize, is_static: bool)
    ensures
        spec_call_property(toks, p, start, is_static).0 is None ==> spec_call_property(toks, p, start, is_static).1.len()
            > 0,
{
    reveal(spec_call_property);
    if toks[p].kind == TokenKind::less {
        match spec_type_params(toks, p) {
            (Ok(tp), r) => lemma_methodish_failure_reported(toks, r, start, Some(tp)),
            _ => {},
        }
    } else {
        lemma_methodish_failure_reported(toks, p, start, None);
    }
}

/// An internal slot that is not read is reported.
proof fn lemma_slot_failure_reported(toks: Seq<Token>, q: int, start: usize, is_static: bool)
    ensures
        spec_internal_slot(toks, q, start, is_static).0 is None ==> spec_internal_slot(toks, q, start, is_static).1.len()
            > 0,
{
    reveal(spec_internal_slot);
    let q3 = step(toks, step(toks, step(toks, q)));
    if toks[q3].kind == TokenKind::less {
        match spec_type_params(toks, q3) {
            (Ok(tp), r) => lemma_methodish_failure_reported(toks, r, start, Some(tp)),
            _ => {},
        }
    } else {
        lemma_methodish_failure_reported(toks, q3, start, None);
    }
}

/// An object type member is read, or its failure is reported: when
/// `parse_property_type_annotation_flow` returns false, it has given at
/// least one diagnostic.
pub proof fn law_member_failure_reported(toks: Seq<Token>, p: int, allow_proto: bool, allow_static: bool)
    ensures
        spec_object_member(toks, p, allow_proto, allow_static).0 is None ==> spec_object_member(
            toks,
            p,
            allow_proto,
            allow_static,
        ).1.len() > 0,
{
    reveal(spec_object_member);
    reveal(spec_bracket_member);
    reveal(spec_named_member);
    reveal(spec_accessor_member);
    reveal(spec_get_or_set);
    let s = toks[p];
    let (proto, is_static, variance, p3) = spec_member_modifiers(toks, p);
    let q = step(toks, p3);
    lemma_slot_failure_reported(toks, step(toks, q), s.start, is_static);
    lemma_method_failure_reported(toks, p3, s.start, false, spec_ident_at(toks, p));
    lemma_call_failure_reported(toks, p3, s.start, is_static);
    match spec_property_name(toks, p3) {
        (Ok(key), r) => {
            lemma_method_failure_reported(toks, r, s.start, is_static, key);
            match spec_property_name(toks, r) {
                (Ok(key2), r2) => {
                    lemma_methodish_failure_reported(toks, r2, s.start, None);
                },
                _ => {},
            }
        },
        _ => {},
    }
}

/// The members of an object type are read, or their failure is reported;
/// and when they are read and not ended by the inexact `...`, the parse
/// stops at the closing `}` or `|}`.
pub proof fn law_object_members_outcome(
    toks: Seq<Token>,
    q: int,
    allow_proto: bool,
    allow_static: bool,
    allow_spread: bool,
    m: ObjectTypeMembers,
)
    ensures
        ({
            let (ok, _, inexact, errs, r) = spec_object_members(toks, q, allow_proto, allow_static, allow_spread, m);
            &&& !ok ==> errs.len() > 0
            &&& ok && !inexact && 0 <= r < toks.len() ==> spec_closes_object(toks[r].kind)
        }),
    decreases toks.len() - q,
{
    if 0 <= q < toks.len() && !spec_closes_object(toks[q].kind) {
        let q1 = step(toks, q);
        let spread = toks[q].kind == TokenKind::dotdotdot;
        if !(spread && (spec_separates_members(toks[q1].kind) || spec_closes_object(toks[q1].kind))) {
            law_member_failure_reported(toks, q, allow_proto, allow_static);
            let (item, e, r) = if spread {
                spec_spread_member(toks, q, allow_spread)
            } else {
                spec_object_member(toks, q, allow_proto, allow_static)
            };
            match item {
                Some(x) => {
                    let m2 = spec_add_member(m, Some(x));
                    if spec_separates_members(toks[r].kind) && q < r < toks.len() {
                        law_object_members_outcome(toks, step(toks, r), allow_proto, allow_static, allow_spread, m2);
                    }
                },
                None => {},
            }
        }
    }
}

impl JSParserImpl {
    /// Parse the rest of a plain object-type property whose key `key` (with
    /// the variance, `static` and `proto` modifiers given) started at
    /// `start`, with the current token at `?` or `:`: an optional `?`, then
    /// `: value`.
    pub fn parse_type_property_flow(
        &mut self,
        start: usize,
        variance: Option<Expr>,
        is_static: bool,
        proto: bool,
        key: Expr,
    ) -> (r: Option<Expr>)
        requires
            old(self).lexer@.is_fresh(),
        ensures
            ({
                let (res, q) = spec_type_property(
                    old(self).lexer@.tokens,
                    old(self).lexer@.pos,
                    start,
                    variance,
                    is_static,
                    proto,
                    key,
                );
                &&& final(self).options == old(self).options
                &&& final(self).lexer@ == old(self).lexer@.at(q)
                &&& match res {
                    Ok(e) => r == Some(e) && final(self).errors@ == old(self).errors@,
                    Err(e) => r is None && final(self).errors@ == old(self).errors@.push(e),
                }
            }),
            r is Some ==> final(self).lexer@.pos > old(self).lexer@.pos,
    {
        reveal(spec_type_property);
        proof { use_type_invariant(&self.lexer); }
        assert(old(self).lexer@.at(old(self).lexer@.pos) == old(self).lexer@);
        let optional = self.check_and_eat(TokenKind::question);
        if !self.eat(TokenKind::colon) {
            return None;
        }
        let value = match self.parse_type_annotation_flow(None) {
            Some(v) => v,
            None => return None,
        };
        let end = self.lexer.prev_token_end();
        Some(
            Expr { parens: 0,
                node: Node::ObjectTypeProperty {
                    key: Box::new(key),
                    value: Box::new(value),
                    method: false,
                    property_kind: PropertyKind::Init,
                    optional,
                    is_static,
                    proto,
                    variance: boxed(variance),
                },
                start,
                end,
            },
        )
    }

    /// Parse a method `key<T>(params): R` of an object type, with the
    /// current token at `<` or `(` after the key `key`, which started at
    /// `start`.
    pub fn parse_method_type_property_flow(&mut self, start: usize, is_static: bool, key: Expr) -> (r: Option<Expr>)
        requires
            old(self).lexer@.is_fresh(),
            old(self).lexer@.kind == TokenKind::less || old(self).lexer@.kind == TokenKind::l_paren,
        ensures
            ({
                let (res, errs, q) = spec_method_property(old(self).lexer@.tokens, old(self).lexer@.pos, start, is_static, key);
                &&& r == res
                &&& final(self).errors@ == old(self).errors@ + errs
                &&& final(self).lexer@ == old(self).lexer@.at(q)
                &&& final(self).options == old(self).options
            }),
            r is Some ==> final(self).lexer@.pos > old(self).lexer@.pos,
    {
        reveal(spec_method_property);
        proof { use_type_invariant(&self.lexer); }
        assert(old(self).lexer@.at(old(self).lexer@.pos) == old(self).lexer@);
        let mut type_params: Option<Expr> = None;
        if self.check(TokenKind::less) {
            type_params = match self.parse_type_params_flow() {
                Some(t) => Some(t),
                None => {
                    assert(self.errors@ =~= old(self).errors@ + seq![self.errors@.last()]);
                    return None;
                },
            };
        }
        proof { use_type_invariant(&self.lexer); }
        let value = match self.parse_methodish_type_annotation_flow(start, type_params) {
            Some(v) => v,
            None => return None,
        };
        let end = self.lexer.prev_token_end();
        Some(
            Expr { parens: 0,
                node: Node::ObjectTypeProperty {
                    key: Box::new(key),
                    value: Box::new(value),
                    method: true,
                    property_kind: PropertyKind::Init,
                    optional: false,
                    is_static,
                    proto: false,
                    variance: None,
                },
                start,
                end,
            },
        )
    }

    /// Parse a getter (`is_getter`) or setter of an object type after its
    /// key `key`, which started at `start`: the signature `(params): R`. A
    /// getter with parameters, a setter without exactly one, and a `this`
    /// constraint on either are reported, and the member is still built.
    #[verifier::rlimit(100)]
    #[verifier::spinoff_prover]
    pub fn parse_get_or_set_type_property_flow(
        &mut self,
        start: usize,
        is_static: bool,
        is_getter: bool,
        key: Expr,
    ) -> (r: Option<Expr>)
        requires
            old(self).lexer@.is_fresh(),
        ensures
            ({
                let (res, errs, q) = spec_get_or_set(
                    old(self).lexer@.tokens,
                    old(self).lexer@.pos,
                    start,
                    is_static,
                    is_getter,
                    key,
                );
                &&& r == res
                &&& final(self).errors@ == old(self).errors@ + errs
                &&& final(self).lexer@ == old(self).lexer@.at(q)
                &&& final(self).options == old(self).options
            }),
            r is Some ==> final(self).lexer@.pos > old(self).lexer@.pos,
    {
        reveal(spec_get_or_set);
        let value = match self.parse_methodish_type_annotation_flow(start, None) {
            Some(v) => v,
            None => return None,
        };
        let ghost e1 = self.errors@.skip(old(self).errors@.len() as int);
        assert(self.errors@ =~= old(self).errors@ + e1);
        let (bad_count, this_range) = match &value.node {
            Node::FunctionTypeAnnotation { params, this_constraint, .. } => {
                let bad = if is_getter {
                    match params {
                        NodeList::Nil => false,
                        NodeList::Cons(..) => true,
                    }
                } else {
                    match params {
                        NodeList::Nil => true,
                        NodeList::Cons(_, rest) => match &**rest {
                            NodeList::Nil => false,
                            NodeList::Cons(..) => true,
                        },
                    }
                };
                let tr = match this_constraint {
                    Some(t) => Some((t.start, t.end)),
                    None => None,
                };
                (bad, tr)
            },
            _ => (false, None),
        };
        let ghost e2 = self.errors@;
        if bad_count {
            if is_getter {
                self.error_at(ErrorKind::GetterParameters, value.start, value.end);
            } else {
                self.error_at(ErrorKind::SetterParameters, value.start, value.end);
            }
        }
        let ghost e3 = self.errors@;
        if let Some((s, e)) = this_range {
            self.error_at(ErrorKind::AccessorThisConstraint, s, e);
        }
        proof {
            assert(self.errors@ =~= old(self).errors@ + (e1 + (e3.skip(e2.len() as int) + self.errors@.skip(e3.len() as int))));
        }
        let end = self.lexer.prev_token_end();
        let property_kind = if is_getter {
            PropertyKind::Getter
        } else {
            PropertyKind::Setter
        };
        Some(
            Expr { parens: 0,
                node: Node::ObjectTypeProperty {
                    key: Box::new(key),
                    value: Box::new(value),
                    method: false,
                    property_kind,
                    optional: false,
                    is_static,
                    proto: false,
                    variance: None,
                },
                start,
                end,
            },
        )
    }

    /// Parse a call property `<T>(params): R` of an object type that
    /// started at `start`, with the current token at `<` or `(`.
    pub fn parse_type_call_property_flow(&mut self, start: usize, is_static: bool) -> (r: Option<Expr>)
        requires
            old(self).lexer@.is_fresh(),
        ensures
            ({
                let (res, errs, q) = spec_call_property(old(self).lexer@.tokens, old(self).lexer@.pos, start, is_static);
                &&& r == res
                &&& final(self).errors@ == old(self).errors@ + errs
                &&& final(self).lexer@ == old(self).lexer@.at(q)
                &&& final(self).options == old(self).options
            }),
            r is Some ==> final(self).lexer@.pos > old(self).lexer@.pos,
    {
        reveal(spec_call_property);
        proof { use_type_invariant(&self.lexer); }
        assert(old(self).lexer@.at(old(self).lexer@.pos) == old(self).lexer@);
        let mut type_params: Option<Expr> = None;
        if self.check(TokenKind::less) {
            type_params = match self.parse_type_params_flow() {
                Some(t) => Some(t),
                None => {
                    assert(self.errors@ =~= old(self).errors@ + seq![self.errors@.last()]);
                    return None;
                },
            };
        }
        proof { use_type_invariant(&self.lexer); }
        let value = match self.parse_methodish_type_annotation_flow(start, type_params) {
            Some(v) => v,
            None => return None,
        };
        let end = self.lexer.prev_token_end();
        Some(Expr { parens: 0, node: Node::ObjectTypeCallProperty { value: Box::new(value), is_static }, start, end })
    }

    /// Parse the rest of an indexer of an object type that started at
    /// `start`, whose bracket contents began with the type `left`: `: key`
    /// when `left` names the indexer (it must then be a bare name), then
    /// `]`, `:` and the value type.
    pub fn parse_type_indexer_property_flow(
        &mut self,
        start: usize,
        left: Expr,
        variance: Option<Expr>,
        is_static: bool,
    ) -> (r: Option<Expr>)
        requires
            old(self).lexer@.is_fresh(),
        ensures
            ({
                let (res, q) = spec_indexer(
                    old(self).lexer@.tokens,
                    old(self).lexer@.pos,
                    start,
                    left,
                    variance,
                    is_static,
                );
                &&& final(self).options == old(self).options
                &&& final(self).lexer@ == old(self).lexer@.at(q)
                &&& match res {
                    Ok(e) => r == Some(e) && final(self).errors@ == old(self).errors@,
                    Err(e) => r is None && final(self).errors@ == old(self).errors@.push(e),
                }
            }),
            r is Some ==> final(self).lexer@.pos > old(self).lexer@.pos,
    {
        reveal(spec_indexer);
        proof { use_type_invariant(&self.lexer); }
        assert(old(self).lexer@.at(old(self).lexer@.pos) == old(self).lexer@);
        let (id, key) = if self.check_and_eat(TokenKind::colon) {
            let id = match self.reparse_type_annotation_as_identifier_flow(&left) {
                Some(id) => id,
                None => return None,
            };
            proof { use_type_invariant(&self.lexer); }
            let key = match self.parse_type_annotation_flow(None) {
                Some(k) => k,
                None => return None,
            };
            (Some(id), key)
        } else {
            (None, left)
        };
        proof { use_type_invariant(&self.lexer); }
        if !self.eat(TokenKind::r_square) {
            return None;
        }
        proof { use_type_invariant(&self.lexer); }
        if !self.eat(TokenKind::colon) {
            return None;
        }
        let value = match self.parse_type_annotation_flow(None) {
            Some(v) => v,
            None => return None,
        };
        let end = self.lexer.prev_token_end();
        Some(
            Expr { parens: 0,
                node: Node::ObjectTypeIndexer {
                    key_name: boxed(id),
                    key: Box::new(key),
                    value: Box::new(value),
                    is_static,
                    variance: boxed(variance),
                },
                start,
                end,
            },
        )
    }

    /// Parse the rest of a mapped type member `[K in source]: T` of an
    /// object type that started at `start`, whose key `left` (it must be a
    /// bare name) was read with the `in` after it: the source type, `]`,
    /// the optionality sigil `+?`, `-?` or `?`, `:` and the property type.
    #[verifier::rlimit(100)]
    #[verifier::spinoff_prover]
    pub fn parse_type_mapped_type_property_flow(
        &mut self,
        start: usize,
        left: Expr,
        variance: Option<Expr>,
    ) -> (r: Option<Expr>)
        requires
            old(self).lexer@.is_fresh(),
        ensures
            ({
                let (res, q) = spec_mapped_property(old(self).lexer@.tokens, old(self).lexer@.pos, start, left, variance);
                &&& final(self).options == old(self).options
                &&& final(self).lexer@ == old(self).lexer@.at(q)
                &&& match res {
                    Ok(e) => r == Some(e) && final(self).errors@ == old(self).errors@,
                    Err(e) => r is None && final(self).errors@ == old(self).errors@.push(e),
                }
            }),
            r is Some ==> final(self).lexer@.pos > old(self).lexer@.pos,
    {
        reveal(spec_mapped_property);
        proof { use_type_invariant(&self.lexer); }
        assert(old(self).lexer@.at(old(self).lexer@.pos) == old(self).lexer@);
        let id = match self.reparse_type_annotation_as_identifier_flow(&left) {
            Some(id) => id,
            None => return None,
        };
        let name = match id.node {
            Node::Identifier(i) => i,
            _ => {
                assert(false);
                return None;
            },
        };
        let key_tparam = Expr { parens: 0,
            node: Node::TypeParameter {
                name,
                is_const: false,
                bound: None,
                variance: None,
                initializer: None,
                uses_extends_bound: false,
            },
            start: left.start,
            end: left.end,
        };
        let source_type = match self.parse_type_annotation_flow(None) {
            Some(t) => t,
            None => return None,
        };
        proof { use_type_invariant(&self.lexer); }
        if !self.eat(TokenKind::r_square) {
            return None;
        }
        proof { use_type_invariant(&self.lexer); }
        let mut optionality: Option<MappedTypeOptional> = None;
        if self.check_and_eat(TokenKind::plus) {
            proof { use_type_invariant(&self.lexer); }
            if !self.eat(TokenKind::question) {
                return None;
            }
            optionality = Some(MappedTypeOptional::PlusOptional);
        } else if self.check_and_eat(TokenKind::minus) {
            proof { use_type_invariant(&self.lexer); }
            if !self.eat(TokenKind::question) {
                return None;
            }
            optionality = Some(MappedTypeOptional::MinusOptional);
        } else if self.check_and_eat(TokenKind::question) {
            optionality = Some(MappedTypeOptional::Optional);
        }
        proof { use_type_invariant(&self.lexer); }
        if !self.eat(TokenKind::colon) {
            return None;
        }
        let prop_type = match self.parse_type_annotation_flow(None) {
            Some(t) => t,
            None => return None,
        };
        let end = self.lexer.prev_token_end();
        Some(
            Expr { parens: 0,
                node: Node::ObjectTypeMappedTypeProperty {
                    key_tparam: Box::new(key_tparam),
                    prop_type: Box::new(prop_type),
                    source_type: Box::new(source_type),
                    variance: boxed(variance),
                    optionality,
                },
                start,
                end,
            },
        )
    }


    /// Parse the modifiers of an object type member: `proto`, or else
    /// `static` (the reserved word or the name); then a variance: `+`, `-`,
    /// or `readonly` / `writeonly` when what follows can be a key. Returns
    /// whether `proto` and `static` were read, and the variance.
    #[verifier::rlimit(100)]
    #[verifier::spinoff_prover]
    fn parse_member_modifiers(&mut self) -> (r: (bool, bool, Option<Expr>))
        requires
            old(self).lexer@.is_fresh(),
        ensures
            ({
                let (proto, is_static, variance, q) = spec_member_modifiers(old(self).lexer@.tokens, old(self).lexer@.pos);
                &&& r == (proto, is_static, variance)
                &&& final(self).lexer@ == old(self).lexer@.at(q)
                &&& final(self).errors@ == old(self).errors@
                &&& final(self).options == old(self).options
            }),
            final(self).lexer@.pos >= old(self).lexer@.pos,
    {
        reveal(spec_member_modifiers);
        proof { use_type_invariant(&self.lexer); }
        assert(old(self).lexer@.at(old(self).lexer@.pos) == old(self).lexer@);
        let proto_name: [u8; 5] = [112u8, 114u8, 111u8, 116u8, 111u8];
        let static_name: [u8; 6] = [115u8, 116u8, 97u8, 116u8, 105u8, 99u8];
        let readonly_name: [u8; 8] = [114u8, 101u8, 97u8, 100u8, 111u8, 110u8, 108u8, 121u8];
        let writeonly_name: [u8; 9] = [119u8, 114u8, 105u8, 116u8, 101u8, 111u8, 110u8, 108u8, 121u8];
        proof {
            assert(proto_name@ =~= spec_proto_name());
            assert(static_name@ =~= spec_static_name());
            assert(readonly_name@ =~= spec_readonly_name());
            assert(writeonly_name@ =~= spec_writeonly_name());
        }
        let proto = self.check_name(proto_name.as_slice());
        if proto {
            self.advance();
        }
        proof { use_type_invariant(&self.lexer); }
        let is_static = !proto && (self.check(TokenKind::rw_static) || self.check_name(static_name.as_slice()));
        if is_static {
            self.advance();
        }
        proof { use_type_invariant(&self.lexer); }
        let mut variance: Option<Expr> = None;
        if self.check2(TokenKind::plus, TokenKind::minus) {
            let kind = if self.check(TokenKind::plus) {
                VarianceKind::Plus
            } else {
                VarianceKind::Minus
            };
            let (vs, ve) = self.advance();
            variance = Some(Expr { parens: 0, node: Node::Variance(kind), start: vs, end: ve });
        } else {
            let ro = self.check_name(readonly_name.as_slice());
            let wo = self.check_name(writeonly_name.as_slice());
            if (ro || wo) && can_follow_variance_keyword_flow(self.lexer.lookahead1()) {
                let kind = if ro {
                    VarianceKind::Readonly
                } else {
                    VarianceKind::Writeonly
                };
                let (vs, ve) = self.advance();
                variance = Some(Expr { parens: 0, node: Node::Variance(kind), start: vs, end: ve });
            }
        }
        (proto, is_static, variance)
    }

    /// Parse an internal slot of an object type that started at `start`,
    /// after its `[[`: the name, `]]`, then a method-like signature or
    /// `?: T` / `: T`.
    #[verifier::rlimit(100)]
    #[verifier::spinoff_prover]
    fn parse_internal_slot(&mut self, start: usize, is_static: bool) -> (r: Option<Expr>)
        requires
            old(self).lexer@.is_fresh(),
        ensures
            ({
                let (res, errs, q) = spec_internal_slot(old(self).lexer@.tokens, old(self).lexer@.pos, start, is_static);
                &&& r == res
                &&& final(self).errors@ == old(self).errors@ + errs
                &&& final(self).lexer@ == old(self).lexer@.at(q)
                &&& final(self).options == old(self).options
            }),
            r is Some ==> final(self).lexer@.pos > old(self).lexer@.pos,
    {
        reveal(spec_internal_slot);
        proof { use_type_invariant(&self.lexer); }
        assert(old(self).lexer@.at(old(self).lexer@.pos) == old(self).lexer@);
        if !(self.check(TokenKind::identifier) || is_reserved_word(self.cur_kind())) {
            self.error_cur(ErrorKind::Expected(TokenKind::identifier));
            assert(self.errors@ =~= old(self).errors@ + seq![self.errors@.last()]);
            return None;
        }
        let idx = self.lexer.cur_index();
        let (is, ie) = self.advance();
        let id = Expr { parens: 0, node: Node::Identifier(idx), start: is, end: ie };
        proof { use_type_invariant(&self.lexer); }
        if !self.eat(TokenKind::r_square) {
            assert(self.errors@ =~= old(self).errors@ + seq![self.errors@.last()]);
            return None;
        }
        proof { use_type_invariant(&self.lexer); }
        if !self.eat(TokenKind::r_square) {
            assert(self.errors@ =~= old(self).errors@ + seq![self.errors@.last()]);
            return None;
        }
        proof { use_type_invariant(&self.lexer); }
        if self.check2(TokenKind::less, TokenKind::l_paren) {
            let mut type_params: Option<Expr> = None;
            if self.check(TokenKind::less) {
                type_params = match self.parse_type_params_flow() {
                    Some(t) => Some(t),
                    None => {
                        assert(self.errors@ =~= old(self).errors@ + seq![self.errors@.last()]);
                        return None;
                    },
                };
            }
            proof { use_type_invariant(&self.lexer); }
            let value = match self.parse_methodish_type_annotation_flow(start, type_params) {
                Some(v) => v,
                None => return None,
            };
            let end = self.lexer.prev_token_end();
            return Some(
                Expr { parens: 0,
                    node: Node::ObjectTypeInternalSlot {
                        id: Box::new(id),
                        value: Box::new(value),
                        optional: false,
                        is_static,
                        method: true,
                    },
                    start,
                    end,
                },
            );
        }
        let optional = self.check_and_eat(TokenKind::question);
        proof { use_type_invariant(&self.lexer); }
        if !self.eat(TokenKind::colon) {
            assert(self.errors@ =~= old(self).errors@ + seq![self.errors@.last()]);
            return None;
        }
        let value = match self.parse_type_annotation_flow(None) {
            Some(v) => v,
            None => {
                assert(self.errors@ =~= old(self).errors@ + seq![self.errors@.last()]);
                return None;
            },
        };
        let end = self.lexer.prev_token_end();
        assert(self.errors@ =~= old(self).errors@ + Seq::<ParseError>::empty());
        Some(
            Expr { parens: 0,
                node: Node::ObjectTypeInternalSlot {
                    id: Box::new(id),
                    value: Box::new(value),
                    optional,
                    is_static,
                    method: false,
                },
                start,
                end,
            },
        )
    }

    /// Report `kind` over the variance `variance`, if there is one.
    fn error_variance(&mut self, variance: &Option<Expr>, kind: ErrorKind)
        ensures
            final(self).errors@ == old(self).errors@ + spec_variance_err(*variance, kind),
            final(self).lexer@ == old(self).lexer@,
            final(self).options == old(self).options,
    {
        match variance {
            Some(v) => {
                self.error_at(kind, v.start, v.end);
                assert(self.errors@ =~= old(self).errors@ + spec_variance_err(*variance, kind));
            },
            None => {
                assert(self.errors@ =~= old(self).errors@ + spec_variance_err(*variance, kind));
            },
        }
    }

    /// Report `kind` over `[start, end)` when `c` holds.
    fn error_if(&mut self, c: bool, kind: ErrorKind, start: usize, end: usize)
        ensures
            final(self).errors@ == old(self).errors@ + spec_err_if(c, kind, start, end),
            final(self).lexer@ == old(self).lexer@,
            final(self).options == old(self).options,
    {
        if c {
            self.error_at(kind, start, end);
        }
        assert(self.errors@ =~= old(self).errors@ + spec_err_if(c, kind, start, end));
    }


    /// Parse an object type member that starts with `[` (the member began
    /// over `[ss, se)`, its modifiers read): an internal slot `[[id]]`, a
    /// mapped type member `[K in T]` or an indexer.
    #[verifier::rlimit(100)]
    #[verifier::spinoff_prover]
    fn parse_bracket_member(
        &mut self,
        ss: usize,
        se: usize,
        proto: bool,
        is_static: bool,
        variance: Option<Expr>,
        allow_static: bool,
    ) -> (r: Option<(ObjectMember, Expr)>)
        requires
            old(self).lexer@.is_fresh(),
            old(self).lexer@.kind == TokenKind::l_square,
        ensures
            ({
                let (res, errs, q) = spec_bracket_member(
                    old(self).lexer@.tokens,
                    old(self).lexer@.pos,
                    ss,
                    se,
                    proto,
                    is_static,
                    variance,
                    allow_static,
                );
                &&& r == res
                &&& final(self).errors@ == old(self).errors@ + errs
                &&& final(self).lexer@ == old(self).lexer@.at(q)
                &&& final(self).options == old(self).options
            }),
            r is Some ==> final(self).lexer@.pos > old(self).lexer@.pos,
    {
        reveal(spec_bracket_member);
        proof { use_type_invariant(&self.lexer); }
        self.advance();
        proof { use_type_invariant(&self.lexer); }
        if self.check(TokenKind::l_square) {
            self.advance();
            self.error_variance(&variance, ErrorKind::UnexpectedVarianceSigil);
            self.error_if(proto, ErrorKind::InvalidProtoModifier, ss, se);
            self.error_if(is_static && !allow_static, ErrorKind::InvalidStaticModifier, ss, se);
            let ghost e0 = self.errors@.skip(old(self).errors@.len() as int);
            assert(self.errors@ =~= old(self).errors@ + e0);
            proof { use_type_invariant(&self.lexer); }
            let res = self.parse_internal_slot(ss, is_static);
            assert(self.errors@ =~= old(self).errors@ + (e0 + self.errors@.skip((old(self).errors@.len() + e0.len()) as int)));
            return match res {
                Some(e) => Some((ObjectMember::InternalSlot, e)),
                None => None,
            };
        }
        let left = match self.parse_type_annotation_flow(None) {
            Some(t) => t,
            None => {
                assert(self.errors@ =~= old(self).errors@ + seq![self.errors@.last()]);
                return None;
            },
        };
        proof { use_type_invariant(&self.lexer); }
        let res = if self.check(TokenKind::rw_in) {
            self.advance();
            proof { use_type_invariant(&self.lexer); }
            match self.parse_type_mapped_type_property_flow(ss, left, variance) {
                Some(m) => (ObjectMember::Property, m),
                None => {
                    assert(self.errors@ =~= old(self).errors@ + seq![self.errors@.last()]);
                    return None;
                },
            }
        } else {
            match self.parse_type_indexer_property_flow(ss, left, variance, is_static) {
                Some(m) => (ObjectMember::Indexer, m),
                None => {
                    assert(self.errors@ =~= old(self).errors@ + seq![self.errors@.last()]);
                    return None;
                },
            }
        };
        self.error_if(proto, ErrorKind::InvalidProtoModifier, ss, se);
        self.error_if(is_static && !allow_static, ErrorKind::InvalidStaticModifier, ss, se);
        assert(self.errors@ =~= old(self).errors@ + self.errors@.skip(old(self).errors@.len() as int));
        Some(res)
    }

    /// Parse the rest of a getter (`is_getter`) or setter of an object
    /// type, after `get` or `set` (the member began over `[ss, se)`, its
    /// modifiers read): the property name and the signature.
    #[verifier::rlimit(100)]
    #[verifier::spinoff_prover]
    fn parse_accessor_member(
        &mut self,
        ss: usize,
        se: usize,
        proto: bool,
        is_static: bool,
        variance: Option<Expr>,
        allow_static: bool,
        is_getter: bool,
    ) -> (r: Option<(ObjectMember, Expr)>)
        requires
            old(self).lexer@.is_fresh(),
        ensures
            ({
                let (res, errs, q) = spec_accessor_member(
                    old(self).lexer@.tokens,
                    old(self).lexer@.pos,
                    ss,
                    se,
                    proto,
                    is_static,
                    variance,
                    allow_static,
                    is_getter,
                );
                &&& r == res
                &&& final(self).errors@ == old(self).errors@ + errs
                &&& final(self).lexer@ == old(self).lexer@.at(q)
                &&& final(self).options == old(self).options
            }),
            r is Some ==> final(self).lexer@.pos > old(self).lexer@.pos,
    {
        reveal(spec_accessor_member);
        self.error_variance(&variance, ErrorKind::AccessorVariance);
        self.error_if(proto, ErrorKind::InvalidProtoModifier, ss, se);
        self.error_if(is_static && !allow_static, ErrorKind::InvalidStaticModifier, ss, se);
        let ghost e0 = self.errors@.skip(old(self).errors@.len() as int);
        assert(self.errors@ =~= old(self).errors@ + e0);
        let key2 = match self.parse_property_name() {
            Some(k) => k,
            None => {
                assert(self.errors@ =~= old(self).errors@ + e0.push(self.errors@.last()));
                return None;
            },
        };
        let res = self.parse_get_or_set_type_property_flow(ss, is_static, is_getter, key2);
        assert(self.errors@ =~= old(self).errors@ + (e0 + self.errors@.skip((old(self).errors@.len() + e0.len()) as int)));
        match res {
            Some(e) => Some((ObjectMember::Property, e)),
            None => None,
        }
    }

    /// Parse an object type member that starts with a property name (the
    /// member began over `[ss, se)`, its modifiers read): a method, a plain
    /// property, or a getter or setter (`get` or `set` and another name).
    #[verifier::rlimit(100)]
    #[verifier::spinoff_prover]
    fn parse_named_member(
        &mut self,
        ss: usize,
        se: usize,
        proto: bool,
        is_static: bool,
        variance: Option<Expr>,
        allow_proto: bool,
        allow_static: bool,
    ) -> (r: Option<(ObjectMember, Expr)>)
        requires
            old(self).lexer@.is_fresh(),
        ensures
            ({
                let (res, errs, q) = spec_named_member(
                    old(self).lexer@.tokens,
                    old(self).lexer@.pos,
                    ss,
                    se,
                    proto,
                    is_static,
                    variance,
                    allow_proto,
                    allow_static,
                );
                &&& r == res
                &&& final(self).errors@ == old(self).errors@ + errs
                &&& final(self).lexer@ == old(self).lexer@.at(q)
                &&& final(self).options == old(self).options
            }),
            r is Some ==> final(self).lexer@.pos > old(self).lexer@.pos,
    {
        reveal(spec_named_member);
        proof { use_type_invariant(&self.lexer); }
        let get_name: [u8; 3] = [103u8, 101u8, 116u8];
        let set_name: [u8; 3] = [115u8, 101u8, 116u8];
        proof {
            assert(get_name@ =~= spec_get_name());
            assert(set_name@ =~= spec_set_name());
        }
        let is_get = self.check_name(get_name.as_slice());
        let is_set = self.check_name(set_name.as_slice());
        let key = match self.parse_property_name() {
            Some(k) => k,
            None => {
                assert(self.errors@ =~= old(self).errors@ + seq![self.errors@.last()]);
                return None;
            },
        };
        proof { use_type_invariant(&self.lexer); }
        if self.check2(TokenKind::less, TokenKind::l_paren) {
            self.error_variance(&variance, ErrorKind::UnexpectedVarianceSigil);
            self.error_if(proto, ErrorKind::InvalidProtoModifier, ss, se);
            self.error_if(is_static && !allow_static, ErrorKind::InvalidStaticModifier, ss, se);
            let ghost e0 = self.errors@.skip(old(self).errors@.len() as int);
            assert(self.errors@ =~= old(self).errors@ + e0);
            let res = self.parse_method_type_property_flow(ss, is_static, key);
            assert(self.errors@ =~= old(self).errors@ + (e0 + self.errors@.skip((old(self).errors@.len() + e0.len()) as int)));
            return match res {
                Some(e) => Some((ObjectMember::Property, e)),
                None => None,
            };
        }
        if self.check2(TokenKind::colon, TokenKind::question) {
            self.error_if(proto && !allow_proto, ErrorKind::InvalidProtoModifier, ss, se);
            self.error_if(is_static && !allow_static, ErrorKind::InvalidStaticModifier, ss, se);
            let ghost e0 = self.errors@.skip(old(self).errors@.len() as int);
            assert(self.errors@ =~= old(self).errors@ + e0);
            let res = self.parse_type_property_flow(ss, variance, is_static, proto, key);
            proof {
                if res is None {
                    assert(self.errors@ =~= old(self).errors@ + e0.push(self.errors@.last()));
                }
            }
            return match res {
                Some(e) => Some((ObjectMember::Property, e)),
                None => None,
            };
        }
        if is_get || is_set {
            return self.parse_accessor_member(ss, se, proto, is_static, variance, allow_static, is_get);
        }
        self.error_cur(ErrorKind::ExpectedEither(TokenKind::colon, TokenKind::question));
        assert(self.errors@ =~= old(self).errors@ + seq![self.errors@.last()]);
        None
    }

    /// Parse an object type member and return the list it goes to: after
    /// its modifiers, a bracketed member, a method or call property, a
    /// property named `static` or `proto`, or a member with a property
    /// name. `proto` is a modifier only where `allow_proto`, and `static`
    /// only where `allow_static`; where they are not, a method named by them
    /// is read.
    #[verifier::rlimit(100)]
    #[verifier::spinoff_prover]
    fn parse_object_type_member(&mut self, allow_proto: bool, allow_static: bool) -> (r: Option<(ObjectMember, Expr)>)
        requires
            old(self).lexer@.is_fresh(),
        ensures
            ({
                let (res, errs, q) = spec_object_member(old(self).lexer@.tokens, old(self).lexer@.pos, allow_proto, allow_static);
                &&& r == res
                &&& final(self).errors@ == old(self).errors@ + errs
                &&& final(self).lexer@ == old(self).lexer@.at(q)
                &&& final(self).options == old(self).options
            }),
            r is Some ==> final(self).lexer@.pos > old(self).lexer@.pos,
    {
        reveal(spec_object_member);
        proof { use_type_invariant(&self.lexer); }
        let p_idx = self.lexer.cur_index();
        let (ss, se) = self.lexer.cur_range();
        let (proto, is_static, variance) = self.parse_member_modifiers();
        proof { use_type_invariant(&self.lexer); }
        if self.check(TokenKind::l_square) {
            return self.parse_bracket_member(ss, se, proto, is_static, variance, allow_static);
        }
        if self.check2(TokenKind::less, TokenKind::l_paren) {
            if (is_static && !allow_static) || (proto && !allow_proto) {
                self.error_variance(&variance, ErrorKind::UnexpectedVarianceSigil);
                let ghost e0 = self.errors@.skip(old(self).errors@.len() as int);
                assert(self.errors@ =~= old(self).errors@ + e0);
                let key = Expr { parens: 0, node: Node::Identifier(p_idx), start: ss, end: se };
                let res = self.parse_method_type_property_flow(ss, false, key);
                assert(self.errors@ =~= old(self).errors@ + (e0 + self.errors@.skip((old(self).errors@.len() + e0.len()) as int)));
                return match res {
                    Some(e) => Some((ObjectMember::Property, e)),
                    None => None,
                };
            }
            self.error_variance(&variance, ErrorKind::CallPropertyVariance);
            self.error_if(proto, ErrorKind::InvalidProtoModifier, ss, se);
            let ghost e0 = self.errors@.skip(old(self).errors@.len() as int);
            assert(self.errors@ =~= old(self).errors@ + e0);
            let res = self.parse_type_call_property_flow(ss, is_static);
            assert(self.errors@ =~= old(self).errors@ + (e0 + self.errors@.skip((old(self).errors@.len() + e0.len()) as int)));
            return match res {
                Some(e) => Some((ObjectMember::CallProperty, e)),
                None => None,
            };
        }
        if (is_static || proto) && self.check2(TokenKind::colon, TokenKind::question) {
            self.error_variance(&variance, ErrorKind::UnexpectedVarianceSigil);
            let ghost e0 = self.errors@.skip(old(self).errors@.len() as int);
            assert(self.errors@ =~= old(self).errors@ + e0);
            let key = Expr { parens: 0, node: Node::Identifier(p_idx), start: ss, end: se };
            let res = self.parse_type_property_flow(ss, variance, false, false, key);
            proof {
                if res is None {
                    assert(self.errors@ =~= old(self).errors@ + e0.push(self.errors@.last()));
                }
            }
            return match res {
                Some(e) => Some((ObjectMember::Property, e)),
                None => None,
            };
        }
        self.parse_named_member(ss, se, proto, is_static, variance, allow_proto, allow_static)
    }

    /// Parse an object type member and append it to the list it belongs
    /// to: `properties` (plain properties, methods, getters, setters and
    /// mapped type members), `indexers`, `call_properties` or
    /// `internal_slots`. Returns whether a member was read. `proto` is a
    /// modifier only where `allow_proto`, and `static` only where
    /// `allow_static`.
    pub fn parse_property_type_annotation_flow(
        &mut self,
        allow_proto: bool,
        allow_static: bool,
        properties: &mut Vec<Expr>,
        indexers: &mut Vec<Expr>,
        call_properties: &mut Vec<Expr>,
        internal_slots: &mut Vec<Expr>,
    ) -> (r: bool)
        requires
            old(self).lexer@.is_fresh(),
        ensures
            ({
                let (res, errs, q) = spec_object_member(old(self).lexer@.tokens, old(self).lexer@.pos, allow_proto, allow_static);
                &&& r == res is Some
                &&& final(properties)@ == old(properties)@ + spec_in_list(res, ObjectMember::Property)
                &&& final(indexers)@ == old(indexers)@ + spec_in_list(res, ObjectMember::Indexer)
                &&& final(call_properties)@ == old(call_properties)@ + spec_in_list(res, ObjectMember::CallProperty)
                &&& final(internal_slots)@ == old(internal_slots)@ + spec_in_list(res, ObjectMember::InternalSlot)
                &&& final(self).errors@ == old(self).errors@ + errs
                &&& final(self).lexer@ == old(self).lexer@.at(q)
                &&& final(self).options == old(self).options
            }),
    {
        match self.parse_object_type_member(allow_proto, allow_static) {
            Some((k, e)) => {
                match k {
                    ObjectMember::Property => properties.push(e),
                    ObjectMember::Indexer => indexers.push(e),
                    ObjectMember::CallProperty => call_properties.push(e),
                    ObjectMember::InternalSlot => internal_slots.push(e),
                }
                assert(properties@ =~= old(properties)@ + spec_in_list(Some((k, e)), ObjectMember::Property));
                assert(indexers@ =~= old(indexers)@ + spec_in_list(Some((k, e)), ObjectMember::Indexer));
                assert(call_properties@ =~= old(call_properties)@ + spec_in_list(Some((k, e)), ObjectMember::CallProperty));
                assert(internal_slots@ =~= old(internal_slots)@ + spec_in_list(Some((k, e)), ObjectMember::InternalSlot));
                true
            },
            None => {
                assert(properties@ =~= old(properties)@ + Seq::<Expr>::empty());
                assert(indexers@ =~= old(indexers)@ + Seq::<Expr>::empty());
                assert(call_properties@ =~= old(call_properties)@ + Seq::<Expr>::empty());
                assert(internal_slots@ =~= old(internal_slots)@ + Seq::<Expr>::empty());
                false
            },
        }
    }


    /// Parse the members of an object type up to its closing `}` or `|}`,
    /// appending each to its list: members and spreads `...T` (reported
    /// unless `allow_spread`), separated by `,` or `;`. A `...` followed by
    /// a separator or the closing token sets `inexact` and ends the members.
    /// Returns whether the members were read.
    #[verifier::rlimit(100)]
    #[verifier::spinoff_prover]
    pub fn parse_object_type_properties_flow(
        &mut self,
        allow_proto: bool,
        allow_static: bool,
        allow_spread: bool,
        properties: &mut Vec<Expr>,
        indexers: &mut Vec<Expr>,
        call_properties: &mut Vec<Expr>,
        internal_slots: &mut Vec<Expr>,
        inexact: &mut bool,
    ) -> (r: bool)
        requires
            old(self).lexer@.is_fresh(),
        ensures
            ({
                let m0 = ObjectTypeMembers {
                    properties: old(properties)@,
                    indexers: old(indexers)@,
                    call_properties: old(call_properties)@,
                    internal_slots: old(internal_slots)@,
                };
                let (ok, m, inex, errs, q) = spec_object_members(
                    old(self).lexer@.tokens,
                    old(self).lexer@.pos,
                    allow_proto,
                    allow_static,
                    allow_spread,
                    m0,
                );
                &&& r == ok
                &&& final(properties)@ == m.properties
                &&& final(indexers)@ == m.indexers
                &&& final(call_properties)@ == m.call_properties
                &&& final(internal_slots)@ == m.internal_slots
                &&& *final(inexact) == (inex || *old(inexact))
                &&& final(self).errors@ == old(self).errors@ + errs
                &&& final(self).lexer@ == old(self).lexer@.at(q)
                &&& final(self).options == old(self).options
            }),
        decreases old(self).lexer@.tokens.len() - old(self).lexer@.pos,
    {
        proof { use_type_invariant(&self.lexer); }
        assert(old(self).lexer@.at(old(self).lexer@.pos) == old(self).lexer@);
        if self.check2(TokenKind::r_brace, TokenKind::piper_brace) {
            assert(self.errors@ =~= old(self).errors@ + Seq::<ParseError>::empty());
            return true;
        }
        let (q_start, _) = self.lexer.cur_range();
        let (k, item) = if self.check(TokenKind::dotdotdot) {
            self.advance();
            proof { use_type_invariant(&self.lexer); }
            if self.check2(TokenKind::comma, TokenKind::semi) {
                *inexact = true;
                self.advance();
                assert(self.errors@ =~= old(self).errors@ + Seq::<ParseError>::empty());
                return true;
            }
            if self.check2(TokenKind::r_brace, TokenKind::piper_brace) {
                *inexact = true;
                assert(self.errors@ =~= old(self).errors@ + Seq::<ParseError>::empty());
                return true;
            }
            if !allow_spread {
                self.error_at(ErrorKind::SpreadOutsideObjectType, q_start, q_start);
            }
            let ghost e0 = self.errors@.skip(old(self).errors@.len() as int);
            assert(self.errors@ =~= old(self).errors@ + e0);
            let t = match self.parse_type_annotation_flow(None) {
                Some(t) => t,
                None => {
                    assert(self.errors@ =~= old(self).errors@ + e0.push(self.errors@.last()));
                    return false;
                },
            };
            let end = self.lexer.prev_token_end();
            (ObjectMember::Property, Expr { parens: 0, node: Node::ObjectTypeSpreadProperty { argument: Box::new(t) }, start: q_start, end })
        } else {
            match self.parse_object_type_member(allow_proto, allow_static) {
                Some(x) => x,
                None => return false,
            }
        };
        let ghost e1 = self.errors@;
        let ghost item_g = (k, item);
        let ghost m0 = ObjectTypeMembers {
            properties: old(properties)@,
            indexers: old(indexers)@,
            call_properties: old(call_properties)@,
            internal_slots: old(internal_slots)@,
        };
        match k {
            ObjectMember::Property => properties.push(item),
            ObjectMember::Indexer => indexers.push(item),
            ObjectMember::CallProperty => call_properties.push(item),
            ObjectMember::InternalSlot => internal_slots.push(item),
        }
        proof {
            use_type_invariant(&self.lexer);
            let m2 = ObjectTypeMembers {
                properties: properties@,
                indexers: indexers@,
                call_properties: call_properties@,
                internal_slots: internal_slots@,
            };
            assert(properties@ =~= m0.properties + spec_in_list(Some(item_g), ObjectMember::Property));
            assert(indexers@ =~= m0.indexers + spec_in_list(Some(item_g), ObjectMember::Indexer));
            assert(call_properties@ =~= m0.call_properties + spec_in_list(Some(item_g), ObjectMember::CallProperty));
            assert(internal_slots@ =~= m0.internal_slots + spec_in_list(Some(item_g), ObjectMember::InternalSlot));
            assert(spec_add_member(m0, Some(item_g)) == m2);
        }
        if self.check2(TokenKind::comma, TokenKind::semi) {
            self.advance();
            let r = self.parse_object_type_properties_flow(
                allow_proto,
                allow_static,
                allow_spread,
                properties,
                indexers,
                call_properties,
                internal_slots,
                inexact,
            );
            assert(self.errors@ =~= old(self).errors@ + (e1.skip(old(self).errors@.len() as int) + self.errors@.skip(e1.len() as int)));
            return r;
        }
        if self.check2(TokenKind::r_brace, TokenKind::piper_brace) {
            return true;
        }
        self.error_cur(ErrorKind::ExpectedPropertySeparator);
        assert(self.errors@ =~= old(self).errors@ + e1.skip(old(self).errors@.len() as int).push(self.errors@.last()));
        false
    }

    /// Parse an object type, with the current token at `{` or `{|` (an
    /// exact object type, closed by `|}`): its members, then the closing
    /// token. The inexact `...` in an exact object type is reported, and
    /// the type still built.
    #[verifier::rlimit(100)]
    #[verifier::spinoff_prover]
    pub fn parse_object_type_annotation_flow(&mut self, allow_proto: bool, allow_static: bool, allow_spread: bool) -> (r: Option<Expr>)
        requires
            old(self).lexer@.is_fresh(),
            old(self).lexer@.kind == TokenKind::l_brace || old(self).lexer@.kind == TokenKind::l_bracepipe,
        ensures
            ({
                let (res, errs, q) = spec_object_type(
                    old(self).lexer@.tokens,
                    old(self).lexer@.pos,
                    allow_proto,
                    allow_static,
                    allow_spread,
                );
                &&& r == res
                &&& final(self).errors@ == old(self).errors@ + errs
                &&& final(self).lexer@ == old(self).lexer@.at(q)
                &&& final(self).options == old(self).options
            }),
    {
        proof { use_type_invariant(&self.lexer); }
        let exact = self.check(TokenKind::l_bracepipe);
        let (start, _) = self.advance();
        proof { use_type_invariant(&self.lexer); }
        let mut properties: Vec<Expr> = Vec::new();
        let mut indexers: Vec<Expr> = Vec::new();
        let mut call_properties: Vec<Expr> = Vec::new();
        let mut internal_slots: Vec<Expr> = Vec::new();
        let mut inexact = false;
        proof {
            assert(properties@ =~= Seq::<Expr>::empty());
            assert(indexers@ =~= Seq::<Expr>::empty());
            assert(call_properties@ =~= Seq::<Expr>::empty());
            assert(internal_slots@ =~= Seq::<Expr>::empty());
        }
        if !self.parse_object_type_properties_flow(
            allow_proto,
            allow_static,
            allow_spread,
            &mut properties,
            &mut indexers,
            &mut call_properties,
            &mut internal_slots,
            &mut inexact,
        ) {
            return None;
        }
        let ghost e1 = self.errors@.skip(old(self).errors@.len() as int);
        assert(self.errors@ =~= old(self).errors@ + e1);
        if exact && inexact {
            self.error_at(ErrorKind::InexactInExactObject, start, start);
        }
        let ghost e2 = self.errors@.skip(old(self).errors@.len() as int);
        assert(self.errors@ =~= old(self).errors@ + e2);
        proof { use_type_invariant(&self.lexer); }
        let (_, end) = self.lexer.cur_range();
        let close = if exact {
            TokenKind::piper_brace
        } else {
            TokenKind::r_brace
        };
        if !self.eat(close) {
            assert(self.errors@ =~= old(self).errors@ + e2.push(self.errors@.last()));
            return None;
        }
        Some(
            Expr { parens: 0,
                node: Node::ObjectTypeAnnotation {
                    properties: list_from_vec(properties),
                    indexers: list_from_vec(indexers),
                    call_properties: list_from_vec(call_properties),
                    internal_slots: list_from_vec(internal_slots),
                    inexact,
                    exact,
                },
                start,
                end,
            },
        )
    }

}

} // verus!
