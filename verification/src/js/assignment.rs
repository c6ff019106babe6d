//! Assignment and conditional expressions over binary expressions:
//! `test ? consequent : alternate`, assignment chains grouped to the right
//! (`a = b = c` is `a = (b = c)`) with a limit on how many assignments one
//! chain may nest, comma-separated sequences, and the reading of a cover
//! expression as arrow function parameters.
//!
//! Like a binary expression's, the diagnostics of these expressions are
//! given as two sequences: those for mixing `??` with `&&`/`||` and the
//! others, each in order.

use vstd::prelude::*;

use crate::js::expressions::{
    spec_ends_assignment, spec_is_assign_op, spec_is_mixing, spec_prev_end, spec_scan, Expr, Node, OfEndsAssignment,
};
use crate::js::flow::declarations::err_at;
use crate::js::expressions::NodeList;
use crate::js::flow::match_::{spec_binding_checks, spec_yield_name};
use crate::js::flow::types::UnsupportedSyntax;
use crate::js::precedence::{spec_folds, spec_mix_errors, spec_tree};
use crate::js::{ErrorKind, JSParserImpl, ParseError, ParserOptions};
use crate::lexer::{is_name_at, step, Token};
use crate::token_kinds::TokenKind;

verus! {

/// The most assignments one chain may nest.
pub const MAX_NESTED_ASSIGNMENTS: usize = 30000;

/// Whether the token at `r` may end an assignment expression: a closing
/// bracket, `,`, `;`, `:`, `in`, the end of input, an unescaped `of`, or a
/// token on a new line.
pub open spec fn spec_ends_assignment_at(toks: Seq<Token>, r: int) -> bool {
    spec_ends_assignment(toks[r].kind) || (is_name_at(toks, r, seq![111u8, 102u8]) && toks[r].end - toks[r].start
        == 2) || toks[r].new_line_before
}

/// A conditional expression at `p` (`in` a binary operator only when
/// `param_in`): a binary expression, then, when `?` follows, an assignment
/// expression (where `in` is an operator), `:` and another assignment
/// expression. Gives the expression with its mixing diagnostics and its
/// other diagnostics, or the diagnostic that stopped it, and the position
/// after.
pub open spec fn spec_conditional(toks: Seq<Token>, p: int, o: ParserOptions, param_in: bool) -> (
    Result<(Expr, Seq<ParseError>, Seq<ParseError>), ParseError>,
    int,
)
    decreases toks.len() - p, 1int,
{
    let except = if param_in {
        TokenKind::none
    } else {
        TokenKind::rw_in
    };
    match spec_scan(toks, p, o.spec_parse_types(), o.param_await, except) {
        (Err(e), r) => (Err(e), r),
        (Ok(s), r) => {
            let test = spec_tree(toks, o.parse_ts, s, 0, s.ops.len() as int);
            let m0 = spec_mix_errors(spec_folds(toks, o.parse_ts, s, 0, s.ops.len() as int));
            let o0 = s.errors;
            if 0 <= p < r < toks.len() && toks[r].kind == TokenKind::question {
                match spec_assignment(toks, step(toks, r), o, true, 0) {
                    (Err(e), r2) => (Err(e), r2),
                    (Ok((c, mc, oc)), r2) => if !(r < r2 < toks.len()) || toks[r2].kind != TokenKind::colon {
                        (Err(err_at(ErrorKind::Expected(TokenKind::colon), toks[r2])), r2)
                    } else {
                        match spec_assignment(toks, step(toks, r2), o, param_in, 0) {
                            (Err(e), r3) => (Err(e), r3),
                            (Ok((a, ma, oa)), r3) => (Ok((
                                Expr {
                                    parens: 0,
                                    node: Node::ConditionalExpression {
                                        test: Box::new(test),
                                        consequent: Box::new(c),
                                        alternate: Box::new(a),
                                    },
                                    start: toks[p].start,
                                    end: spec_prev_end(toks, r3),
                                },
                                m0 + mc + ma,
                                o0 + oc + oa,
                            )), r3),
                        }
                    },
                }
            } else {
                (Ok((test, m0, o0)), r)
            }
        },
    }
}

/// An assignment expression at `p`, inside a chain where `depth`
/// assignment operators were already read: a conditional expression, then,
/// when an assignment operator follows, the assignment expression on its
/// right, grouped to the right. The chain must then end at a token that can
/// end an assignment. `yield` (in a generator) and arrow functions are
/// reported as unsupported; more than the allowed number of nested
/// assignments is reported where the next one would start.
pub open spec fn spec_assignment(toks: Seq<Token>, p: int, o: ParserOptions, param_in: bool, depth: nat) -> (
    Result<(Expr, Seq<ParseError>, Seq<ParseError>), ParseError>,
    int,
)
    decreases toks.len() - p, 2int,
{
    if o.param_yield && (toks[p].kind == TokenKind::rw_yield || is_name_at(toks, p, spec_yield_name())) {
        (Err(err_at(ErrorKind::Unsupported(UnsupportedSyntax::YieldExpression), toks[p])), p)
    } else {
        match spec_conditional(toks, p, o, param_in) {
            (Err(e), r) => (Err(e), r),
            (Ok((lhs, m1, o1)), r) => if 0 <= r < toks.len() && toks[r].kind == TokenKind::equalgreater
                && !toks[r].new_line_before {
                (Err(err_at(ErrorKind::Unsupported(UnsupportedSyntax::ArrowFunction), toks[r])), r)
            } else if 0 <= p < r < toks.len() && spec_is_assign_op(toks[r].kind) {
                let r1 = step(toks, r);
                if depth + 1 > MAX_NESTED_ASSIGNMENTS {
                    (Err(ParseError { kind: ErrorKind::TooManyNestedAssignments, start: toks[r1].start, end: toks[r1].start }), r1)
                } else {
                    match spec_assignment(toks, r1, o, param_in, depth + 1) {
                        (Err(e), r2) => (Err(e), r2),
                        (Ok((rhs, m2, o2)), r2) => if !spec_ends_assignment_at(toks, r2) {
                            (Err(err_at(ErrorKind::UnexpectedAfterAssignment, toks[r2])), r2)
                        } else {
                            (Ok((
                                Expr {
                                    parens: 0,
                                    node: Node::AssignmentExpression {
                                        operator: toks[r].kind,
                                        left: Box::new(lhs),
                                        right: Box::new(rhs),
                                    },
                                    start: lhs.start,
                                    end: spec_prev_end(toks, r2),
                                },
                                m1 + m2,
                                o1 + o2,
                            )), r2)
                        },
                    }
                }
            } else {
                (Ok((lhs, m1, o1)), r)
            },
        }
    }
}

/// Whether the diagnostics `app` are the mixing ones `m` and the others
/// `x`, each in order.
pub open spec fn spec_errors_split(app: Seq<ParseError>, m: Seq<ParseError>, x: Seq<ParseError>) -> bool {
    &&& app.filter(|e: ParseError| spec_is_mixing(e)) == m
    &&& app.filter(|e: ParseError| !spec_is_mixing(e)) == x
}

/// Diagnostics split into mixing ones and others stay split when appended.
proof fn lemma_split_append(
    a: Seq<ParseError>,
    ma: Seq<ParseError>,
    xa: Seq<ParseError>,
    b: Seq<ParseError>,
    mb: Seq<ParseError>,
    xb: Seq<ParseError>,
)
    requires
        spec_errors_split(a, ma, xa),
        spec_errors_split(b, mb, xb),
    ensures
        spec_errors_split(a + b, ma + mb, xa + xb),
{
    let mix = |e: ParseError| spec_is_mixing(e);
    let other = |e: ParseError| !spec_is_mixing(e);
    Seq::filter_distributes_over_add(a, b, mix);
    Seq::filter_distributes_over_add(a, b, other);
}

/// Law: assignment chains group to the right. When an assignment
/// operator follows the conditional expression at the start and the chain
/// parses, the result is an assignment whose left operand is that
/// conditional expression and whose right operand is the whole assignment
/// expression after the operator; so `a = b = c` is `a = (b = c)`.
pub proof fn law_assignment_groups_right(toks: Seq<Token>, p: int, o: ParserOptions, param_in: bool, depth: nat)
    requires
        !(o.param_yield && (toks[p].kind == TokenKind::rw_yield || is_name_at(toks, p, spec_yield_name()))),
        spec_conditional(toks, p, o, param_in).0 is Ok,
        0 <= p < spec_conditional(toks, p, o, param_in).1 < toks.len(),
        spec_is_assign_op(toks[spec_conditional(toks, p, o, param_in).1].kind),
        spec_assignment(toks, p, o, param_in, depth).0 is Ok,
    ensures
        ({
            let e = spec_assignment(toks, p, o, param_in, depth).0->Ok_0.0;
            let r = spec_conditional(toks, p, o, param_in).1;
            &&& e.node is AssignmentExpression
            &&& e.node->AssignmentExpression_operator == toks[r].kind
            &&& *e.node->AssignmentExpression_left == spec_conditional(toks, p, o, param_in).0->Ok_0.0
            &&& *e.node->AssignmentExpression_right == spec_assignment(toks, step(toks, r), o, param_in, depth + 1).0->Ok_0.0
        }),
{
}

/// Law: a chain nests at most the allowed number of assignments. Where
/// `MAX_NESTED_ASSIGNMENTS` operators were read already, one more
/// assignment operator is reported, where the assignment after it would
/// start, and the chain does not parse.
pub proof fn law_assignment_nesting_limit(toks: Seq<Token>, p: int, o: ParserOptions, param_in: bool)
    requires
        !(o.param_yield && (toks[p].kind == TokenKind::rw_yield || is_name_at(toks, p, spec_yield_name()))),
        spec_conditional(toks, p, o, param_in).0 is Ok,
        0 <= p < spec_conditional(toks, p, o, param_in).1 < toks.len(),
        spec_is_assign_op(toks[spec_conditional(toks, p, o, param_in).1].kind),
        !(toks[spec_conditional(toks, p, o, param_in).1].kind == TokenKind::equalgreater),
    ensures
        ({
            let r1 = step(toks, spec_conditional(toks, p, o, param_in).1);
            spec_assignment(toks, p, o, param_in, MAX_NESTED_ASSIGNMENTS as nat) == (
                Err::<(Expr, Seq<ParseError>, Seq<ParseError>), ParseError>(
                    ParseError { kind: ErrorKind::TooManyNestedAssignments, start: toks[r1].start, end: toks[r1].start },
                ),
                r1,
            )
        }),
{
}

// ---------------------------------------------------------------------------
// Arrow function parameters.
// ---------------------------------------------------------------------------

/// The name of the token at `i`, empty where there is none.
pub open spec fn spec_token_name(toks: Seq<Token>, i: usize) -> Seq<u8> {
    if i < toks.len() {
        toks[i as int].value@
    } else {
        Seq::empty()
    }
}

/// The checks on the name `e`, an identifier node, used as a parameter.
pub open spec fn spec_param_name_checks(toks: Seq<Token>, o: ParserOptions, e: Expr) -> (Seq<ParseError>, bool) {
    match e.node {
        Node::Identifier(i) => spec_binding_checks(spec_token_name(toks, i), TokenKind::identifier, o, e.start, e.end),
        _ => (Seq::empty(), true),
    }
}

/// The diagnostic of kind `k` over the range of `e`.
pub open spec fn spec_err_over(k: ErrorKind, e: Expr) -> ParseError {
    ParseError { kind: k, start: e.start, end: e.end }
}

/// One element `e` of a parenthesized parameter list (the last when
/// `is_last`) as a parameter: a rest parameter from a spread (only last),
/// a name, or a name with a default value `name = value`. Gives the
/// parameter, if any, and the diagnostics.
pub open spec fn spec_arrow_param(toks: Seq<Token>, o: ParserOptions, e: Expr, is_last: bool) -> (Option<Expr>, Seq<ParseError>) {
    if e.parens != 0 {
        (None, seq![spec_err_over(ErrorKind::ParenthesizedParameter, e)])
    } else {
        match e.node {
            Node::SpreadElement { argument } => if !is_last {
                (None, seq![spec_err_over(ErrorKind::RestParameterNotLast, e)])
            } else {
                (Some(Expr { parens: 0, node: Node::RestElement { argument }, start: e.start, end: e.end }), Seq::empty())
            },
            Node::AssignmentExpression { operator: TokenKind::equal, left, right } => if left.parens != 0 {
                (None, seq![spec_err_over(ErrorKind::ParenthesizedParameter, *left)])
            } else if left.node is Identifier {
                let (e1, _) = spec_param_name_checks(toks, o, *left);
                (Some(Expr {
                    parens: 0,
                    node: Node::AssignmentPattern { left, right },
                    start: e.start,
                    end: e.end,
                }), e1)
            } else {
                (None, seq![spec_err_over(ErrorKind::IdentifierOrPatternExpected, *left)])
            },
            Node::Identifier(_) => {
                let (e1, _) = spec_param_name_checks(toks, o, e);
                (Some(e), e1 + e1)
            },
            _ => (None, seq![spec_err_over(ErrorKind::IdentifierOrPatternExpected, e)]),
        }
    }
}

/// The elements `l` of a parenthesized parameter list as parameters, in
/// order, with the diagnostics.
pub open spec fn spec_arrow_param_list(toks: Seq<Token>, o: ParserOptions, l: NodeList) -> (Seq<Expr>, Seq<ParseError>)
    decreases l,
{
    match l {
        NodeList::Nil => (Seq::empty(), Seq::empty()),
        NodeList::Cons(e, rest) => {
            let (p1, e1) = spec_arrow_param(toks, o, *e, *rest == NodeList::Nil);
            let (ps, es) = spec_arrow_param_list(toks, o, *rest);
            (match p1 {
                Some(x) => seq![x] + ps,
                None => ps,
            }, e1 + es)
        },
    }
}

/// The expression `node`, read before `=>`, as the parameters of an arrow
/// function: `()` gives none; a bare name gives itself, after the checks on
/// a binding name; an expression in one pair of parentheses gives its
/// elements (those of a sequence, or the expression itself) as
/// parameters. Anything else cannot be parameters. Gives whether it could,
/// the parameters and the diagnostics.
pub open spec fn spec_arrow_params(toks: Seq<Token>, o: ParserOptions, node: Expr) -> (bool, Seq<Expr>, Seq<ParseError>) {
    if node.parens == 0 && node.node is CoverEmptyArgs {
        (true, Seq::empty(), Seq::empty())
    } else if node.parens == 0 && node.node is Identifier {
        let (e, ok) = spec_param_name_checks(toks, o, node);
        (ok, seq![node], e)
    } else if node.parens != 1 {
        (false, Seq::empty(), seq![spec_err_over(ErrorKind::InvalidArrowParameters, node)])
    } else {
        let l = match node.node {
            Node::SequenceExpression { expressions } => expressions,
            _ => NodeList::Cons(
                Box::new(Expr { parens: 0, node: node.node, start: node.start, end: node.end }),
                Box::new(NodeList::Nil),
            ),
        };
        let (ps, es) = spec_arrow_param_list(toks, o, l);
        (true, ps, es)
    }
}

/// The rest of an expression from `q`, after its first element: for each
/// `,`, the assignment expression after it; a `,` directly before `)`
/// gives a trailing-comma cover and ends the list; `...` is reported as
/// unsupported. Gives the further elements with their mixing diagnostics
/// and their other diagnostics, or the diagnostic that stopped them, and
/// the position after.
pub open spec fn spec_expression_tail(toks: Seq<Token>, q: int, o: ParserOptions, param_in: bool) -> (
    Result<(NodeList, Seq<ParseError>, Seq<ParseError>), ParseError>,
    int,
)
    decreases toks.len() - q,
{
    let q1 = step(toks, q);
    if !(0 <= q < q1 < toks.len()) || toks[q].kind != TokenKind::comma {
        (Ok((NodeList::Nil, Seq::empty(), Seq::empty())), q)
    } else if toks[q1].kind == TokenKind::r_paren {
        (Ok((
            NodeList::Cons(
                Box::new(Expr { parens: 0, node: Node::CoverTrailingComma, start: toks[q].start, end: toks[q1].start }),
                Box::new(NodeList::Nil),
            ),
            Seq::empty(),
            Seq::empty(),
        )), q1)
    } else if toks[q1].kind == TokenKind::dotdotdot {
        (Err(err_at(ErrorKind::Unsupported(UnsupportedSyntax::RestElement), toks[q1])), q1)
    } else {
        match spec_assignment(toks, q1, o, param_in, 0) {
            (Err(e), r) => (Err(e), r),
            (Ok((e, m, x)), r) => if q1 < r < toks.len() {
                match spec_expression_tail(toks, r, o, param_in) {
                    (Err(e2), s) => (Err(e2), s),
                    (Ok((l, m2, x2)), s) => (Ok((NodeList::Cons(Box::new(e), Box::new(l)), m + m2, x + x2)), s),
                }
            } else {
                (Ok((NodeList::Cons(Box::new(e), Box::new(NodeList::Nil)), m, x)), r)
            },
        }
    }
}

/// An expression at `p`: an assignment expression, or several separated
/// by commas, which make a sequence expression.
pub open spec fn spec_expression(toks: Seq<Token>, p: int, o: ParserOptions, param_in: bool) -> (
    Result<(Expr, Seq<ParseError>, Seq<ParseError>), ParseError>,
    int,
) {
    match spec_assignment(toks, p, o, param_in, 0) {
        (Err(e), r) => (Err(e), r),
        (Ok((e, m, x)), r) => if !(0 <= r < toks.len()) || toks[r].kind != TokenKind::comma {
            (Ok((e, m, x)), r)
        } else {
            match spec_expression_tail(toks, r, o, param_in) {
                (Err(e2), s) => (Err(e2), s),
                (Ok((l, m2, x2)), s) => (Ok((
                    Expr {
                        parens: 0,
                        node: Node::SequenceExpression { expressions: NodeList::Cons(Box::new(e), Box::new(l)) },
                        start: toks[p].start,
                        end: spec_prev_end(toks, s),
                    },
                    m + m2,
                    x + x2,
                )), s),
            }
        },
    }
}

impl JSParserImpl {
    /// Parse a conditional expression (`in` a binary operator only when
    /// `param_in`): a binary expression, then, when `?` follows, an
    /// assignment expression (where `in` is an operator), `:` and another
    /// assignment expression.
    #[verifier::rlimit(100)]
    #[verifier::spinoff_prover]
    pub fn parse_conditional_expression(&mut self, param_in: bool) -> (r: Option<Expr>)
        requires
            old(self).lexer@.is_fresh(),
        ensures
            ({
                let (res, q) = spec_conditional(old(self).lexer@.tokens, old(self).lexer@.pos, old(self).options, param_in);
                let n0 = old(self).errors@.len() as int;
                let app = final(self).errors@.skip(n0);
                &&& final(self).options == old(self).options
                &&& final(self).lexer@ == old(self).lexer@.at(q)
                &&& final(self).errors@.len() >= n0
                &&& final(self).errors@.take(n0) == old(self).errors@
                &&& match res {
                    Ok((e, m, x)) => r == Some(e) && spec_errors_split(app, m, x),
                    Err(e) => r is None && app.len() > 0 && app.last() == e,
                }
            }),
        decreases old(self).lexer@.tokens.len() - old(self).lexer@.pos, 1int,
    {
        proof { use_type_invariant(&self.lexer); }
        let ghost toks = old(self).lexer@.tokens;
        let ghost p = old(self).lexer@.pos;
        let ghost e0 = old(self).errors@;
        let p_idx = self.lexer.cur_index();
        let (start, _) = self.lexer.cur_range();
        let test = match self.parse_binary_expression(param_in) {
            Some(t) => t,
            None => return None,
        };
        proof { use_type_invariant(&self.lexer); }
        let ghost a1 = self.errors@.skip(e0.len() as int);
        assert(self.errors@ =~= e0 + a1);
        let r_idx = self.lexer.cur_index();
        if !(p_idx < r_idx && self.check(TokenKind::question)) {
            return Some(test);
        }
        self.advance();
        proof { use_type_invariant(&self.lexer); }
        let c = match self.parse_assignment_level(true, 0) {
            Some(c) => c,
            None => {
                assert(self.errors@.skip(e0.len() as int) =~= a1 + self.errors@.skip((e0.len() + a1.len()) as int));
                return None;
            },
        };
        proof { use_type_invariant(&self.lexer); }
        let ghost a2 = self.errors@.skip((e0.len() + a1.len()) as int);
        assert(self.errors@ =~= e0 + a1 + a2);
        let r2_idx = self.lexer.cur_index();
        if !(r_idx < r2_idx) || !self.check(TokenKind::colon) {
            self.error_cur(ErrorKind::Expected(TokenKind::colon));
            assert(self.errors@.skip(e0.len() as int) =~= a1 + a2 + seq![self.errors@.last()]);
            return None;
        }
        self.advance();
        proof { use_type_invariant(&self.lexer); }
        let a = match self.parse_assignment_level(param_in, 0) {
            Some(a) => a,
            None => {
                assert(self.errors@.skip(e0.len() as int) =~= a1 + a2 + self.errors@.skip((e0.len() + a1.len() + a2.len()) as int));
                return None;
            },
        };
        let ghost a3 = self.errors@.skip((e0.len() + a1.len() + a2.len()) as int);
        proof {
            assert(self.errors@ =~= e0 + (a1 + a2 + a3));
            let (res1, _) = spec_scan(toks, p, old(self).options.spec_parse_types(), old(self).options.param_await, if param_in { TokenKind::none } else { TokenKind::rw_in });
            let s = res1->Ok_0;
            let m0 = spec_mix_errors(spec_folds(toks, old(self).options.parse_ts, s, 0, s.ops.len() as int));
            let mc = spec_assignment(toks, step(toks, r_idx as int), old(self).options, true, 0).0->Ok_0.1;
            let oc = spec_assignment(toks, step(toks, r_idx as int), old(self).options, true, 0).0->Ok_0.2;
            let ma = spec_assignment(toks, step(toks, r2_idx as int), old(self).options, param_in, 0).0->Ok_0.1;
            let oa = spec_assignment(toks, step(toks, r2_idx as int), old(self).options, param_in, 0).0->Ok_0.2;
            lemma_split_append(a1, m0, s.errors, a2, mc, oc);
            lemma_split_append(a1 + a2, m0 + mc, s.errors + oc, a3, ma, oa);
            assert(self.errors@.skip(e0.len() as int) =~= a1 + a2 + a3);
        }
        let end = self.lexer.prev_token_end();
        Some(
            Expr {
                parens: 0,
                node: Node::ConditionalExpression {
                    test: Box::new(test),
                    consequent: Box::new(c),
                    alternate: Box::new(a),
                },
                start,
                end,
            },
        )
    }

    /// Parse an assignment expression inside a chain where `depth`
    /// assignment operators were already read.
    #[verifier::rlimit(100)]
    #[verifier::spinoff_prover]
    fn parse_assignment_level(&mut self, param_in: bool, depth: usize) -> (r: Option<Expr>)
        requires
            old(self).lexer@.is_fresh(),
            depth <= MAX_NESTED_ASSIGNMENTS,
        ensures
            ({
                let (res, q) = spec_assignment(
                    old(self).lexer@.tokens,
                    old(self).lexer@.pos,
                    old(self).options,
                    param_in,
                    depth as nat,
                );
                let n0 = old(self).errors@.len() as int;
                let app = final(self).errors@.skip(n0);
                &&& final(self).options == old(self).options
                &&& final(self).lexer@ == old(self).lexer@.at(q)
                &&& final(self).errors@.len() >= n0
                &&& final(self).errors@.take(n0) == old(self).errors@
                &&& match res {
                    Ok((e, m, x)) => r == Some(e) && spec_errors_split(app, m, x),
                    Err(e) => r is None && app.len() > 0 && app.last() == e,
                }
            }),
        decreases old(self).lexer@.tokens.len() - old(self).lexer@.pos, 2int,
    {
        proof { use_type_invariant(&self.lexer); }
        let ghost toks = old(self).lexer@.tokens;
        let ghost p = old(self).lexer@.pos;
        let ghost e0 = old(self).errors@;
        let yield_name: [u8; 5] = [121u8, 105u8, 101u8, 108u8, 100u8];
        assert(yield_name@ =~= spec_yield_name());
        if self.options.param_yield && (self.check(TokenKind::rw_yield) || self.check_name(yield_name.as_slice())) {
            self.error_cur(ErrorKind::Unsupported(UnsupportedSyntax::YieldExpression));
            assert(self.errors@.skip(e0.len() as int) =~= seq![self.errors@.last()]);
            assert(self.errors@.take(e0.len() as int) =~= e0);
            assert(self.lexer@ == old(self).lexer@.at(p));
            return None;
        }
        let p_idx = self.lexer.cur_index();
        let lhs = match self.parse_conditional_expression(param_in) {
            Some(l) => l,
            None => return None,
        };
        proof { use_type_invariant(&self.lexer); }
        let ghost a1 = self.errors@.skip(e0.len() as int);
        assert(self.errors@ =~= e0 + a1);
        let r_idx = self.lexer.cur_index();
        if self.check(TokenKind::equalgreater) && !self.lexer.is_new_line_before_current_token() {
            self.error_cur(ErrorKind::Unsupported(UnsupportedSyntax::ArrowFunction));
            assert(self.errors@.skip(e0.len() as int) =~= a1 + seq![self.errors@.last()]);
            assert(self.errors@.take(e0.len() as int) =~= e0);
            return None;
        }
        if !(p_idx < r_idx && self.check_assign()) {
            return Some(lhs);
        }
        let op = self.cur_kind();
        self.advance();
        proof { use_type_invariant(&self.lexer); }
        if depth + 1 > MAX_NESTED_ASSIGNMENTS {
            let (s0, _) = self.lexer.cur_range();
            self.error_at(ErrorKind::TooManyNestedAssignments, s0, s0);
            assert(self.errors@.skip(e0.len() as int) =~= a1 + seq![self.errors@.last()]);
            assert(self.errors@.take(e0.len() as int) =~= e0);
            return None;
        }
        let rhs = match self.parse_assignment_level(param_in, depth + 1) {
            Some(x) => x,
            None => {
                assert(self.errors@.skip(e0.len() as int) =~= a1 + self.errors@.skip((e0.len() + a1.len()) as int));
                assert(self.errors@.take(e0.len() as int) =~= e0);
                return None;
            },
        };
        proof { use_type_invariant(&self.lexer); }
        let ghost a2 = self.errors@.skip((e0.len() + a1.len()) as int);
        assert(self.errors@ =~= e0 + a1 + a2);
        if !self.check_end_assignment_expression(OfEndsAssignment::Yes) {
            self.error_cur(ErrorKind::UnexpectedAfterAssignment);
            assert(self.errors@.skip(e0.len() as int) =~= a1 + a2 + seq![self.errors@.last()]);
            assert(self.errors@.take(e0.len() as int) =~= e0);
            return None;
        }
        proof {
            let c = spec_conditional(toks, p, old(self).options, param_in).0->Ok_0;
            let rr = spec_assignment(toks, step(toks, r_idx as int), old(self).options, param_in, (depth + 1) as nat).0->Ok_0;
            lemma_split_append(a1, c.1, c.2, a2, rr.1, rr.2);
            assert(self.errors@.skip(e0.len() as int) =~= a1 + a2);
            assert(self.errors@.take(e0.len() as int) =~= e0);
            assert(seq![111u8, 102u8] =~= seq![111u8, 102u8]);
        }
        let start = lhs.start;
        let end = self.lexer.prev_token_end();
        Some(
            Expr {
                parens: 0,
                node: Node::AssignmentExpression { operator: op, left: Box::new(lhs), right: Box::new(rhs) },
                start,
                end,
            },
        )
    }

    /// Parse an assignment expression (`in` a binary operator only when
    /// `param_in`): a conditional expression, then, when an assignment
    /// operator follows, the assignment expression on its right, grouped to
    /// the right (`a = b = c` is `a = (b = c)`), at most
    /// `MAX_NESTED_ASSIGNMENTS` deep. The chain must end at a token that can
    /// end an assignment. `yield` in a generator and arrow functions are
    /// reported as unsupported.
    pub fn parse_assignment_expression(&mut self, param_in: bool) -> (r: Option<Expr>)
        requires
            old(self).lexer@.is_fresh(),
        ensures
            ({
                let (res, q) = spec_assignment(old(self).lexer@.tokens, old(self).lexer@.pos, old(self).options, param_in, 0);
                let n0 = old(self).errors@.len() as int;
                let app = final(self).errors@.skip(n0);
                &&& final(self).options == old(self).options
                &&& final(self).lexer@ == old(self).lexer@.at(q)
                &&& final(self).errors@.len() >= n0
                &&& final(self).errors@.take(n0) == old(self).errors@
                &&& match res {
                    Ok((e, m, x)) => r == Some(e) && spec_errors_split(app, m, x),
                    Err(e) => r is None && app.len() > 0 && app.last() == e,
                }
            }),
    {
        self.parse_assignment_level(param_in, 0)
    }


    /// Check the name `e`, an identifier node, as a parameter.
    fn check_param_name(&mut self, e: &Expr) -> (r: bool)
        ensures
            ({
                let (errs, ok) = spec_param_name_checks(old(self).lexer@.tokens, old(self).options, *e);
                &&& r == ok
                &&& final(self).errors@ == old(self).errors@ + errs
                &&& final(self).lexer@ == old(self).lexer@
                &&& final(self).options == old(self).options
            }),
    {
        match e.node {
            Node::Identifier(i) => {
                let count = self.lexer.token_count();
                if i < count {
                    let name = self.lexer.token_at(i).value.clone();
                    proof { assert(name@ == spec_token_name(self.lexer@.tokens, i)); }
                    self.validate_binding_identifier(e.start, e.end, name.as_slice(), TokenKind::identifier)
                } else {
                    let empty: Vec<u8> = Vec::new();
                    assert(empty@ =~= spec_token_name(self.lexer@.tokens, i));
                    self.validate_binding_identifier(e.start, e.end, empty.as_slice(), TokenKind::identifier)
                }
            },
            _ => {
                assert(self.errors@ =~= old(self).errors@ + Seq::<ParseError>::empty());
                true
            },
        }
    }

    /// One element `e` of a parenthesized parameter list (the last when
    /// `is_last`) as a parameter.
    fn arrow_param(&mut self, e: Expr, is_last: bool) -> (r: Option<Expr>)
        ensures
            ({
                let (p, errs) = spec_arrow_param(old(self).lexer@.tokens, old(self).options, e, is_last);
                &&& r == p
                &&& final(self).errors@ == old(self).errors@ + errs
                &&& final(self).lexer@ == old(self).lexer@
                &&& final(self).options == old(self).options
            }),
    {
        if e.parens != 0 {
            self.error_at(ErrorKind::ParenthesizedParameter, e.start, e.end);
            assert(self.errors@ =~= old(self).errors@ + seq![self.errors@.last()]);
            return None;
        }
        let Expr { node, start, end, parens } = e;
        match node {
            Node::SpreadElement { argument } => {
                if !is_last {
                    self.error_at(ErrorKind::RestParameterNotLast, start, end);
                    assert(self.errors@ =~= old(self).errors@ + seq![self.errors@.last()]);
                    return None;
                }
                assert(self.errors@ =~= old(self).errors@ + Seq::<ParseError>::empty());
                Some(Expr { parens: 0, node: Node::RestElement { argument }, start, end })
            },
            Node::AssignmentExpression { operator, left, right } => {
                if operator != TokenKind::equal {
                    self.error_at(ErrorKind::IdentifierOrPatternExpected, start, end);
                    assert(self.errors@ =~= old(self).errors@ + seq![self.errors@.last()]);
                    return None;
                }
                if left.parens != 0 {
                    self.error_at(ErrorKind::ParenthesizedParameter, left.start, left.end);
                    assert(self.errors@ =~= old(self).errors@ + seq![self.errors@.last()]);
                    return None;
                }
                let is_ident = match left.node {
                    Node::Identifier(_) => true,
                    _ => false,
                };
                if !is_ident {
                    self.error_at(ErrorKind::IdentifierOrPatternExpected, left.start, left.end);
                    assert(self.errors@ =~= old(self).errors@ + seq![self.errors@.last()]);
                    return None;
                }
                self.check_param_name(&left);
                Some(Expr { parens: 0, node: Node::AssignmentPattern { left, right }, start, end })
            },
            Node::Identifier(i) => {
                let x = Expr { parens, node: Node::Identifier(i), start, end };
                self.check_param_name(&x);
                let ghost e1 = self.errors@.skip(old(self).errors@.len() as int);
                assert(self.errors@ =~= old(self).errors@ + e1);
                self.check_param_name(&x);
                assert(self.errors@ =~= old(self).errors@ + (e1 + e1));
                Some(x)
            },
            _ => {
                self.error_at(ErrorKind::IdentifierOrPatternExpected, start, end);
                assert(self.errors@ =~= old(self).errors@ + seq![self.errors@.last()]);
                None
            },
        }
    }

    /// The elements `l` of a parenthesized parameter list as parameters,
    /// appended to `params`.
    fn arrow_param_list(&mut self, l: NodeList, params: &mut Vec<Expr>)
        ensures
            ({
                let (ps, errs) = spec_arrow_param_list(old(self).lexer@.tokens, old(self).options, l);
                &&& final(params)@ == old(params)@ + ps
                &&& final(self).errors@ == old(self).errors@ + errs
                &&& final(self).lexer@ == old(self).lexer@
                &&& final(self).options == old(self).options
            }),
        decreases l,
    {
        match l {
            NodeList::Nil => {
                assert(params@ =~= old(params)@ + Seq::<Expr>::empty());
                assert(self.errors@ =~= old(self).errors@ + Seq::<ParseError>::empty());
            },
            NodeList::Cons(e, rest) => {
                let is_last = match *rest {
                    NodeList::Nil => true,
                    _ => false,
                };
                let p1 = self.arrow_param(*e, is_last);
                let ghost e1 = self.errors@.skip(old(self).errors@.len() as int);
                assert(self.errors@ =~= old(self).errors@ + e1);
                let ghost mid = params@;
                let ghost p1g = p1;
                match p1 {
                    Some(x) => params.push(x),
                    None => {},
                }
                self.arrow_param_list(*rest, params);
                proof {
                    let (ps, es) = spec_arrow_param_list(old(self).lexer@.tokens, old(self).options, *rest);
                    assert(self.errors@ =~= old(self).errors@ + (e1 + es));
                    match p1g {
                        Some(x) => assert(params@ =~= old(params)@ + (seq![x] + ps)),
                        None => assert(params@ =~= old(params)@ + ps),
                    }
                }
            },
        }
    }

    /// Read the expression `node`, read before `=>`, as the parameters of
    /// an arrow function, appending them to `param_list`: `()` gives none; a
    /// bare name gives itself, after the checks on a binding name; an
    /// expression in one pair of parentheses gives its elements (those of a
    /// sequence, or the expression itself). Anything else is reported as
    /// not a parameter list. Returns whether it could be read; `is_async`
    /// is left as it is.
    pub fn reparse_arrow_parameters(&mut self, node: Expr, param_list: &mut Vec<Expr>, is_async: &mut bool) -> (r: bool)
        ensures
            ({
                let (ok, ps, errs) = spec_arrow_params(old(self).lexer@.tokens, old(self).options, node);
                &&& r == ok
                &&& final(param_list)@ == (if ok {
                    old(param_list)@ + ps
                } else {
                    old(param_list)@
                })
                &&& *final(is_async) == *old(is_async)
                &&& final(self).errors@ == old(self).errors@ + errs
                &&& final(self).lexer@ == old(self).lexer@
                &&& final(self).options == old(self).options
            }),
    {
        let is_cover = match node.node {
            Node::CoverEmptyArgs => true,
            _ => false,
        };
        let is_ident = match node.node {
            Node::Identifier(_) => true,
            _ => false,
        };
        if node.parens == 0 && is_cover {
            assert(param_list@ =~= old(param_list)@ + Seq::<Expr>::empty());
            assert(self.errors@ =~= old(self).errors@ + Seq::<ParseError>::empty());
            return true;
        }
        if node.parens == 0 && is_ident {
            let ok = self.check_param_name(&node);
            let ghost n = node;
            if ok {
                param_list.push(node);
                assert(param_list@ =~= old(param_list)@ + seq![n]);
            }
            return ok;
        }
        if node.parens != 1 {
            self.error_at(ErrorKind::InvalidArrowParameters, node.start, node.end);
            assert(self.errors@ =~= old(self).errors@ + seq![self.errors@.last()]);
            return false;
        }
        let Expr { node: n, start, end, .. } = node;
        let l = match n {
            Node::SequenceExpression { expressions } => expressions,
            other => NodeList::Cons(Box::new(Expr { parens: 0, node: other, start, end }), Box::new(NodeList::Nil)),
        };
        self.arrow_param_list(l, param_list);
        true
    }


    /// Parse the rest of an expression after its first element: for each
    /// `,`, the assignment expression after it; a `,` directly before `)`
    /// gives a trailing-comma cover and ends the list; `...` is reported as
    /// unsupported.
    #[verifier::rlimit(100)]
    #[verifier::spinoff_prover]
    fn parse_expression_tail(&mut self, param_in: bool) -> (r: Option<NodeList>)
        requires
            old(self).lexer@.is_fresh(),
        ensures
            ({
                let (res, q) = spec_expression_tail(old(self).lexer@.tokens, old(self).lexer@.pos, old(self).options, param_in);
                let n0 = old(self).errors@.len() as int;
                let app = final(self).errors@.skip(n0);
                &&& final(self).options == old(self).options
                &&& final(self).lexer@ == old(self).lexer@.at(q)
                &&& final(self).errors@.len() >= n0
                &&& final(self).errors@.take(n0) == old(self).errors@
                &&& match res {
                    Ok((l, m, x)) => r == Some(l) && spec_errors_split(app, m, x),
                    Err(e) => r is None && app.len() > 0 && app.last() == e,
                }
            }),
        decreases old(self).lexer@.tokens.len() - old(self).lexer@.pos,
    {
        proof { use_type_invariant(&self.lexer); }
        let ghost e0 = old(self).errors@;
        let ghost toks = old(self).lexer@.tokens;
        let q_idx = self.lexer.cur_index();
        let count = self.lexer.token_count();
        proof {
            assert(self.errors@.skip(e0.len() as int) =~= Seq::<ParseError>::empty());
            assert(self.errors@.take(e0.len() as int) =~= e0);
            assert(Seq::<ParseError>::empty().filter(|e: ParseError| spec_is_mixing(e)) =~= Seq::<ParseError>::empty());
            assert(Seq::<ParseError>::empty().filter(|e: ParseError| !spec_is_mixing(e)) =~= Seq::<ParseError>::empty());
            assert(self.lexer@ == old(self).lexer@.at(old(self).lexer@.pos));
        }
        if !(q_idx + 1 < count) || !self.check(TokenKind::comma) {
            return Some(NodeList::Nil);
        }
        let (comma_start, _) = self.advance();
        proof { use_type_invariant(&self.lexer); }
        if self.check(TokenKind::r_paren) {
            let (close_start, _) = self.lexer.cur_range();
            return Some(
                NodeList::Cons(
                    Box::new(Expr { parens: 0, node: Node::CoverTrailingComma, start: comma_start, end: close_start }),
                    Box::new(NodeList::Nil),
                ),
            );
        }
        if self.check(TokenKind::dotdotdot) {
            self.error_cur(ErrorKind::Unsupported(UnsupportedSyntax::RestElement));
            assert(self.errors@.skip(e0.len() as int) =~= seq![self.errors@.last()]);
            assert(self.errors@.take(e0.len() as int) =~= e0);
            return None;
        }
        let q1_idx = self.lexer.cur_index();
        let e = match self.parse_assignment_level(param_in, 0) {
            Some(e) => e,
            None => return None,
        };
        proof { use_type_invariant(&self.lexer); }
        let ghost a1 = self.errors@.skip(e0.len() as int);
        assert(self.errors@ =~= e0 + a1);
        let r_idx = self.lexer.cur_index();
        if !(q1_idx < r_idx) {
            return Some(NodeList::Cons(Box::new(e), Box::new(NodeList::Nil)));
        }
        let l = match self.parse_expression_tail(param_in) {
            Some(l) => l,
            None => {
                assert(self.errors@.skip(e0.len() as int) =~= a1 + self.errors@.skip((e0.len() + a1.len()) as int));
                assert(self.errors@.take(e0.len() as int) =~= e0);
                return None;
            },
        };
        proof {
            let a2 = self.errors@.skip((e0.len() + a1.len()) as int);
            assert(self.errors@ =~= e0 + a1 + a2);
            let ra = spec_assignment(toks, q1_idx as int, old(self).options, param_in, 0).0->Ok_0;
            let rt = spec_expression_tail(toks, r_idx as int, old(self).options, param_in).0->Ok_0;
            lemma_split_append(a1, ra.1, ra.2, a2, rt.1, rt.2);
            assert(self.errors@.skip(e0.len() as int) =~= a1 + a2);
            assert(self.errors@.take(e0.len() as int) =~= e0);
        }
        Some(NodeList::Cons(Box::new(e), Box::new(l)))
    }

    /// Parse an expression: an assignment expression, or several separated
    /// by commas, which make a sequence expression.
    #[verifier::rlimit(100)]
    #[verifier::spinoff_prover]
    pub fn parse_expression(&mut self, param_in: bool) -> (r: Option<Expr>)
        requires
            old(self).lexer@.is_fresh(),
        ensures
            ({
                let (res, q) = spec_expression(old(self).lexer@.tokens, old(self).lexer@.pos, old(self).options, param_in);
                let n0 = old(self).errors@.len() as int;
                let app = final(self).errors@.skip(n0);
                &&& final(self).options == old(self).options
                &&& final(self).lexer@ == old(self).lexer@.at(q)
                &&& final(self).errors@.len() >= n0
                &&& final(self).errors@.take(n0) == old(self).errors@
                &&& match res {
                    Ok((e, m, x)) => r == Some(e) && spec_errors_split(app, m, x),
                    Err(e) => r is None && app.len() > 0 && app.last() == e,
                }
            }),
    {
        proof { use_type_invariant(&self.lexer); }
        let ghost e0 = old(self).errors@;
        let ghost toks = old(self).lexer@.tokens;
        let ghost p = old(self).lexer@.pos;
        let (start, _) = self.lexer.cur_range();
        let e = match self.parse_assignment_level(param_in, 0) {
            Some(e) => e,
            None => return None,
        };
        proof { use_type_invariant(&self.lexer); }
        if !self.check(TokenKind::comma) {
            return Some(e);
        }
        let ghost a1 = self.errors@.skip(e0.len() as int);
        assert(self.errors@ =~= e0 + a1);
        let ghost r = self.lexer@.pos;
        let l = match self.parse_expression_tail(param_in) {
            Some(l) => l,
            None => {
                assert(self.errors@.skip(e0.len() as int) =~= a1 + self.errors@.skip((e0.len() + a1.len()) as int));
                assert(self.errors@.take(e0.len() as int) =~= e0);
                return None;
            },
        };
        proof {
            let a2 = self.errors@.skip((e0.len() + a1.len()) as int);
            assert(self.errors@ =~= e0 + a1 + a2);
            let ra = spec_assignment(toks, p, old(self).options, param_in, 0).0->Ok_0;
            let rt = spec_expression_tail(toks, r, old(self).options, param_in).0->Ok_0;
            lemma_split_append(a1, ra.1, ra.2, a2, rt.1, rt.2);
            assert(self.errors@.skip(e0.len() as int) =~= a1 + a2);
            assert(self.errors@.take(e0.len() as int) =~= e0);
        }
        let end = self.lexer.prev_token_end();
        Some(
            Expr {
                parens: 0,
                node: Node::SequenceExpression { expressions: NodeList::Cons(Box::new(e), Box::new(l)) },
                start,
                end,
            },
        )
    }

}

} // verus!
