//! Flow type-parameter declarations `<T: Bound = Default>` and the entries
//! of class and `record` `implements` clauses.

use vstd::prelude::*;

use crate::js::expressions::{boxed, spec_boxed, spec_prev_end, Expr, Node, NodeList};
use crate::js::flow::declarations::err_at;
use crate::js::flow::types::{spec_type, spec_type_args};
use crate::js::{ErrorKind, JSParserImpl, ParseError};
use crate::lexer::{is_name_at, step, Token};
use crate::token_kinds::TokenKind;

verus! {

/// The variance written before a type parameter: `+`, `-`, `in` or `out`.
#[derive(Clone, Copy, Debug, PartialEq, Eq, Structural)]
pub enum VarianceKind {
    Plus,
    Minus,
    In,
    Out,
    Readonly,
    Writeonly,
}

/// The name `out`.
pub open spec fn spec_out_name() -> Seq<u8> {
    seq![111u8, 117u8, 116u8]
}

/// Whether the token at `p` is `in` or the name `out`, which may be a
/// variance or the parameter's name.
pub open spec fn spec_is_variance_keyword(toks: Seq<Token>, p: int) -> bool {
    toks[p].kind == TokenKind::rw_in || is_name_at(toks, p, spec_out_name())
}

/// The variance node of the token at `p`, of kind `k`.
pub open spec fn spec_variance_at(toks: Seq<Token>, p: int, k: VarianceKind) -> Expr {
    Expr { parens: 0, node: Node::Variance(k), start: toks[p].start, end: toks[p].end }
}

/// The start of a type parameter at `p`: an optional `const`, an optional
/// variance, and the name. `in` and `out` are a variance when a name (an
/// identifier or `in`) follows them, and the name otherwise. Gives whether
/// `const` was written, the variance, the index of the name's token, and
/// the position after the name.
pub open spec fn spec_type_param_head(toks: Seq<Token>, p: int) -> (Result<(bool, Option<Expr>, usize), ParseError>, int) {
    let is_const = toks[p].kind == TokenKind::rw_const;
    let p1 = if is_const {
        step(toks, p)
    } else {
        p
    };
    let sign = if toks[p1].kind == TokenKind::plus {
        Some(spec_variance_at(toks, p1, VarianceKind::Plus))
    } else if toks[p1].kind == TokenKind::minus {
        Some(spec_variance_at(toks, p1, VarianceKind::Minus))
    } else {
        None
    };
    let deferred = sign is None && spec_is_variance_keyword(toks, p1);
    let p2 = if sign is Some || deferred {
        step(toks, p1)
    } else {
        p1
    };
    if toks[p2].kind == TokenKind::identifier || toks[p2].kind == TokenKind::rw_in {
        let variance = if deferred {
            Some(spec_variance_at(
                toks,
                p1,
                if toks[p1].kind == TokenKind::rw_in {
                    VarianceKind::In
                } else {
                    VarianceKind::Out
                },
            ))
        } else {
            sign
        };
        (Ok((is_const, variance, p2 as usize)), step(toks, p2))
    } else if deferred {
        (Ok((is_const, None, p1 as usize)), p2)
    } else {
        (Err(err_at(ErrorKind::Expected(TokenKind::identifier), toks[p2])), p2)
    }
}

/// The optional bound of a type parameter at `q`: `: T` or `extends T`,
/// wrapped in a type annotation node from the `:` or `extends`. Gives the
/// bound and whether `extends` introduced it.
pub open spec fn spec_type_param_bound(toks: Seq<Token>, q: int) -> (Result<(Option<Expr>, bool), ParseError>, int) {
    if toks[q].kind == TokenKind::colon || toks[q].kind == TokenKind::rw_extends {
        match spec_type(toks, step(toks, q)) {
            (Err(e), r) => (Err(e), r),
            (Ok(t), r) => (Ok((
                Some(Expr { parens: 0,
                    node: Node::TypeAnnotation { type_annotation: Box::new(t) },
                    start: toks[q].start,
                    end: spec_prev_end(toks, r),
                }),
                toks[q].kind == TokenKind::rw_extends,
            )), r),
        }
    } else {
        (Ok((None, false)), q)
    }
}

/// The optional default `= T` of a type parameter at `q`.
pub open spec fn spec_type_param_default(toks: Seq<Token>, q: int) -> (Result<Option<Expr>, ParseError>, int) {
    if toks[q].kind == TokenKind::equal {
        match spec_type(toks, step(toks, q)) {
            (Err(e), r) => (Err(e), r),
            (Ok(t), r) => (Ok(Some(t)), r),
        }
    } else {
        (Ok(None), q)
    }
}

/// One type parameter at `p`: `[const] [variance] Name [: Bound | extends
/// Bound] [= Default]`.
pub open spec fn spec_type_param(toks: Seq<Token>, p: int) -> (Result<Expr, ParseError>, int) {
    match spec_type_param_head(toks, p) {
        (Err(e), q) => (Err(e), q),
        (Ok((is_const, variance, name)), q) => match spec_type_param_bound(toks, q) {
            (Err(e), r) => (Err(e), r),
            (Ok((bound, uses_extends_bound)), r) => match spec_type_param_default(toks, r) {
                (Err(e), s) => (Err(e), s),
                (Ok(default), s) => (Ok(Expr { parens: 0,
                    node: Node::TypeParameter {
                        name,
                        is_const,
                        bound: spec_boxed(bound),
                        variance: spec_boxed(variance),
                        initializer: spec_boxed(default),
                        uses_extends_bound,
                    },
                    start: toks[p].start,
                    end: spec_prev_end(toks, s),
                }), s),
            },
        },
    }
}

/// The type parameters from `q` on: at least one, separated by commas; a
/// comma directly before the closing `>` is allowed.
pub open spec fn spec_type_param_list(toks: Seq<Token>, q: int) -> (Result<NodeList, ParseError>, int)
    decreases toks.len() - q,
{
    match spec_type_param(toks, q) {
        (Err(e), r) => (Err(e), r),
        (Ok(t), r) => {
            if 0 <= q < r < toks.len() && toks[r].kind == TokenKind::comma {
                let r2 = step(toks, r);
                if toks[r2].kind == TokenKind::greater {
                    (Ok(NodeList::Cons(Box::new(t), Box::new(NodeList::Nil))), r2)
                } else {
                    match spec_type_param_list(toks, r2) {
                        (Err(e), s) => (Err(e), s),
                        (Ok(rest), s) => (Ok(NodeList::Cons(Box::new(t), Box::new(rest))), s),
                    }
                }
            } else {
                (Ok(NodeList::Cons(Box::new(t), Box::new(NodeList::Nil))), r)
            }
        },
    }
}

/// A type-parameter declaration `<T, U>` at `p`, where the token is `<`.
pub open spec fn spec_type_params(toks: Seq<Token>, p: int) -> (Result<Expr, ParseError>, int) {
    match spec_type_param_list(toks, step(toks, p)) {
        (Err(e), s) => (Err(e), s),
        (Ok(list), s) => if toks[s].kind == TokenKind::greater {
            (Ok(Expr { parens: 0,
                node: Node::TypeParameterDeclaration { params: list },
                start: toks[p].start,
                end: toks[s].end,
            }), step(toks, s))
        } else {
            (Err(err_at(ErrorKind::Expected(TokenKind::greater), toks[s])), s)
        },
    }
}

/// An entry of an `implements` clause at `p`, whose token is an
/// identifier: the name, then type arguments when `<` follows. The entry is
/// a record's when `record`, a class's otherwise.
pub open spec fn spec_implements_entry(toks: Seq<Token>, p: int, record: bool) -> (Result<Expr, ParseError>, int) {
    let t = toks[p];
    let id = Expr { parens: 0, node: Node::Identifier(p as usize), start: t.start, end: t.end };
    let q = step(toks, p);
    let (res, r) = if toks[q].kind == TokenKind::less {
        match spec_type_args(toks, q) {
            (Err(e), r) => (Err(e), r),
            (Ok(args), r) => (Ok(Some(Box::new(args))), r),
        }
    } else {
        (Ok(None), q)
    };
    match res {
        Err(e) => (Err(e), r),
        Ok(type_parameters) => (Ok(Expr { parens: 0,
            node: if record {
                Node::RecordDeclarationImplements { id: Box::new(id), type_parameters }
            } else {
                Node::ClassImplements { id: Box::new(id), type_parameters }
            },
            start: t.start,
            end: spec_prev_end(toks, r),
        }), r),
    }
}

impl JSParserImpl {
    /// Parse the start of a type parameter: `const`, a variance and the
    /// name. Gives whether `const` was written, the variance and the index
    /// of the name's token.
    fn parse_type_param_head(&mut self) -> (r: Option<(bool, Option<Expr>, usize)>)
        requires
            old(self).lexer@.is_fresh(),
        ensures
            ({
                let (res, q) = spec_type_param_head(old(self).lexer@.tokens, old(self).lexer@.pos);
                &&& final(self).options == old(self).options
                &&& final(self).lexer@ == old(self).lexer@.at(q)
                &&& match res {
                    Ok(h) => r == Some(h) && final(self).errors@ == old(self).errors@,
                    Err(e) => r is None && final(self).errors@ == old(self).errors@.push(e),
                }
            }),
            r is Some ==> final(self).lexer@.pos > old(self).lexer@.pos,
    {
        proof { use_type_invariant(&self.lexer); }
        assert(old(self).lexer@.at(old(self).lexer@.pos) == old(self).lexer@);
        let mut is_const = false;
        if self.check(TokenKind::rw_const) {
            is_const = true;
            self.advance();
        }
        proof { use_type_invariant(&self.lexer); }
        let out: [u8; 3] = [111u8, 117u8, 116u8];
        assert(out@ =~= spec_out_name());
        let mut variance: Option<Expr> = None;
        let mut deferred: Option<(usize, VarianceKind, usize, usize)> = None;
        if self.check2(TokenKind::plus, TokenKind::minus) {
            let k = if self.check(TokenKind::plus) {
                VarianceKind::Plus
            } else {
                VarianceKind::Minus
            };
            let (vs, ve) = self.advance();
            variance = Some(Expr { parens: 0, node: Node::Variance(k), start: vs, end: ve });
        } else if self.check(TokenKind::rw_in) || self.check_name(out.as_slice()) {
            let idx = self.lexer.cur_index();
            let k = if self.check(TokenKind::rw_in) {
                VarianceKind::In
            } else {
                VarianceKind::Out
            };
            let (vs, ve) = self.advance();
            deferred = Some((idx, k, vs, ve));
        }
        proof { use_type_invariant(&self.lexer); }
        if self.check(TokenKind::identifier) || self.check(TokenKind::rw_in) {
            match deferred {
                Some((_, k, vs, ve)) => {
                    variance = Some(Expr { parens: 0, node: Node::Variance(k), start: vs, end: ve });
                },
                None => {},
            }
            let name = self.lexer.cur_index();
            self.advance();
            Some((is_const, variance, name))
        } else {
            match deferred {
                Some((idx, _, _, _)) => Some((is_const, None, idx)),
                None => {
                    self.need(TokenKind::identifier);
                    None
                },
            }
        }
    }

    /// Parse the optional bound `: T` or `extends T` of a type parameter.
    fn parse_type_param_bound(&mut self) -> (r: Option<(Option<Expr>, bool)>)
        requires
            old(self).lexer@.is_fresh(),
        ensures
            ({
                let (res, q) = spec_type_param_bound(old(self).lexer@.tokens, old(self).lexer@.pos);
                &&& final(self).options == old(self).options
                &&& final(self).lexer@ == old(self).lexer@.at(q)
                &&& match res {
                    Ok(b) => r == Some(b) && final(self).errors@ == old(self).errors@,
                    Err(e) => r is None && final(self).errors@ == old(self).errors@.push(e),
                }
            }),
            r is Some ==> final(self).lexer@.pos >= old(self).lexer@.pos,
    {
        proof { use_type_invariant(&self.lexer); }
        assert(old(self).lexer@.at(old(self).lexer@.pos) == old(self).lexer@);
        if self.check2(TokenKind::colon, TokenKind::rw_extends) {
            let uses_extends_bound = self.check(TokenKind::rw_extends);
            let (bound_start, _) = self.advance();
            let t = match self.parse_type_annotation_flow(None) {
                Some(t) => t,
                None => return None,
            };
            let bound_end = self.lexer.prev_token_end();
            Some((
                Some(Expr { parens: 0, node: Node::TypeAnnotation { type_annotation: Box::new(t) }, start: bound_start, end: bound_end }),
                uses_extends_bound,
            ))
        } else {
            Some((None, false))
        }
    }

    /// Parse the optional default `= T` of a type parameter.
    fn parse_type_param_default(&mut self) -> (r: Option<Option<Expr>>)
        requires
            old(self).lexer@.is_fresh(),
        ensures
            ({
                let (res, q) = spec_type_param_default(old(self).lexer@.tokens, old(self).lexer@.pos);
                &&& final(self).options == old(self).options
                &&& final(self).lexer@ == old(self).lexer@.at(q)
                &&& match res {
                    Ok(d) => r == Some(d) && final(self).errors@ == old(self).errors@,
                    Err(e) => r is None && final(self).errors@ == old(self).errors@.push(e),
                }
            }),
            r is Some ==> final(self).lexer@.pos >= old(self).lexer@.pos,
    {
        proof { use_type_invariant(&self.lexer); }
        assert(old(self).lexer@.at(old(self).lexer@.pos) == old(self).lexer@);
        if self.check_and_eat(TokenKind::equal) {
            match self.parse_type_annotation_flow(None) {
                Some(t) => Some(Some(t)),
                None => None,
            }
        } else {
            Some(None)
        }
    }

    /// Parse one type parameter: `[const] [variance] Name [: Bound |
    /// extends Bound] [= Default]`. A variance is `+`, `-`, or `in`/`out`
    /// followed by the name; `in` or `out` followed by anything else is the
    /// name itself.
    pub fn parse_type_param_flow(&mut self) -> (r: Option<Expr>)
        requires
            old(self).lexer@.is_fresh(),
        ensures
            ({
                let (res, q) = spec_type_param(old(self).lexer@.tokens, old(self).lexer@.pos);
                &&& final(self).options == old(self).options
                &&& final(self).lexer@ == old(self).lexer@.at(q)
                &&& match res {
                    Ok(e) => r == Some(e) && final(self).errors@ == old(self).errors@,
                    Err(e) => r is None && final(self).errors@ == old(self).errors@.push(e),
                }
            }),
            r is Some ==> final(self).lexer@.pos > old(self).lexer@.pos,
    {
        proof { use_type_invariant(&self.lexer); }
        let (start, _) = self.lexer.cur_range();
        let (is_const, variance, name) = match self.parse_type_param_head() {
            Some(h) => h,
            None => return None,
        };
        let (bound, uses_extends_bound) = match self.parse_type_param_bound() {
            Some(b) => b,
            None => return None,
        };
        let initializer = match self.parse_type_param_default() {
            Some(d) => d,
            None => return None,
        };
        let end = self.lexer.prev_token_end();
        Some(
            Expr { parens: 0,
                node: Node::TypeParameter {
                    name,
                    is_const,
                    bound: boxed(bound),
                    variance: boxed(variance),
                    initializer: boxed(initializer),
                    uses_extends_bound,
                },
                start,
                end,
            },
        )
    }

    /// Parse the type parameters from the current one on, up to the
    /// closing `>`.
    fn parse_type_param_list(&mut self) -> (r: Option<NodeList>)
        requires
            old(self).lexer@.is_fresh(),
        ensures
            ({
                let (res, q) = spec_type_param_list(old(self).lexer@.tokens, old(self).lexer@.pos);
                &&& final(self).options == old(self).options
                &&& final(self).lexer@ == old(self).lexer@.at(q)
                &&& match res {
                    Ok(l) => r == Some(l) && final(self).errors@ == old(self).errors@,
                    Err(e) => r is None && final(self).errors@ == old(self).errors@.push(e),
                }
            }),
            r is Some ==> final(self).lexer@.pos > old(self).lexer@.pos,
        decreases old(self).lexer@.tokens.len() - old(self).lexer@.pos,
    {
        proof { use_type_invariant(&self.lexer); }
        let t = match self.parse_type_param_flow() {
            Some(t) => t,
            None => return None,
        };
        proof { use_type_invariant(&self.lexer); }
        if self.check(TokenKind::comma) {
            self.advance();
            proof { use_type_invariant(&self.lexer); }
            if self.check(TokenKind::greater) {
                return Some(NodeList::Cons(Box::new(t), Box::new(NodeList::Nil)));
            }
            let rest = match self.parse_type_param_list() {
                Some(l) => l,
                None => return None,
            };
            Some(NodeList::Cons(Box::new(t), Box::new(rest)))
        } else {
            Some(NodeList::Cons(Box::new(t), Box::new(NodeList::Nil)))
        }
    }

    /// Parse a type-parameter declaration `<T, U: B, ...>`, with the
    /// current token at `<`: at least one parameter; a comma before the
    /// closing `>` is allowed.
    pub fn parse_type_params_flow(&mut self) -> (r: Option<Expr>)
        requires
            old(self).lexer@.is_fresh(),
            old(self).lexer@.kind == TokenKind::less,
        ensures
            ({
                let (res, q) = spec_type_params(old(self).lexer@.tokens, old(self).lexer@.pos);
                &&& final(self).options == old(self).options
                &&& final(self).lexer@ == old(self).lexer@.at(q)
                &&& match res {
                    Ok(e) => r == Some(e) && final(self).errors@ == old(self).errors@,
                    Err(e) => r is None && final(self).errors@ == old(self).errors@.push(e),
                }
            }),
            r is Some ==> final(self).lexer@.pos > old(self).lexer@.pos,
    {
        proof { use_type_invariant(&self.lexer); }
        let (start, _) = self.advance();
        let params = match self.parse_type_param_list() {
            Some(l) => l,
            None => return None,
        };
        let (_, end) = self.lexer.cur_range();
        if !self.need(TokenKind::greater) {
            return None;
        }
        self.advance();
        Some(Expr { parens: 0, node: Node::TypeParameterDeclaration { params }, start, end })
    }

    /// Parse one entry of a class `implements` clause, with the current
    /// token at its name: the name, then type arguments when `<` follows.
    pub fn parse_class_implements_flow(&mut self) -> (r: Option<Expr>)
        requires
            old(self).lexer@.is_fresh(),
            old(self).lexer@.kind == TokenKind::identifier,
        ensures
            ({
                let (res, q) = spec_implements_entry(old(self).lexer@.tokens, old(self).lexer@.pos, false);
                &&& final(self).options == old(self).options
                &&& final(self).lexer@ == old(self).lexer@.at(q)
                &&& match res {
                    Ok(e) => r == Some(e) && final(self).errors@ == old(self).errors@,
                    Err(e) => r is None && final(self).errors@ == old(self).errors@.push(e),
                }
            }),
            r is Some ==> final(self).lexer@.pos > old(self).lexer@.pos,
    {
        self.parse_implements_entry(false)
    }

    /// Parse one entry of a `record` `implements` clause, with the current
    /// token at its name: the name, then type arguments when `<` follows.
    pub fn parse_record_declaration_implements_flow(&mut self) -> (r: Option<Expr>)
        requires
            old(self).lexer@.is_fresh(),
            old(self).lexer@.kind == TokenKind::identifier,
        ensures
            ({
                let (res, q) = spec_implements_entry(old(self).lexer@.tokens, old(self).lexer@.pos, true);
                &&& final(self).options == old(self).options
                &&& final(self).lexer@ == old(self).lexer@.at(q)
                &&& match res {
                    Ok(e) => r == Some(e) && final(self).errors@ == old(self).errors@,
                    Err(e) => r is None && final(self).errors@ == old(self).errors@.push(e),
                }
            }),
            r is Some ==> final(self).lexer@.pos > old(self).lexer@.pos,
    {
        self.parse_implements_entry(true)
    }

    /// Parse one entry of an `implements` clause: a record's when `record`,
    /// a class's otherwise.
    fn parse_implements_entry(&mut self, record: bool) -> (r: Option<Expr>)
        requires
            old(self).lexer@.is_fresh(),
            old(self).lexer@.kind == TokenKind::identifier,
        ensures
            ({
                let (res, q) = spec_implements_entry(old(self).lexer@.tokens, old(self).lexer@.pos, record);
                &&& final(self).options == old(self).options
                &&& final(self).lexer@ == old(self).lexer@.at(q)
                &&& match res {
                    Ok(e) => r == Some(e) && final(self).errors@ == old(self).errors@,
                    Err(e) => r is None && final(self).errors@ == old(self).errors@.push(e),
                }
            }),
            r is Some ==> final(self).lexer@.pos > old(self).lexer@.pos,
    {
        proof { use_type_invariant(&self.lexer); }
        let idx = self.lexer.cur_index();
        let (start, id_end) = self.advance();
        let id = Expr { parens: 0, node: Node::Identifier(idx), start, end: id_end };
        proof { use_type_invariant(&self.lexer); }
        let mut type_parameters: Option<Box<Expr>> = None;
        if self.check(TokenKind::less) {
            match self.parse_type_args_flow() {
                Some(a) => {
                    type_parameters = Some(Box::new(a));
                },
                None => return None,
            }
        }
        let end = self.lexer.prev_token_end();
        let node = if record {
            Node::RecordDeclarationImplements { id: Box::new(id), type_parameters }
        } else {
            Node::ClassImplements { id: Box::new(id), type_parameters }
        };
        Some(Expr { parens: 0, node, start, end })
    }
}

} // verus!
