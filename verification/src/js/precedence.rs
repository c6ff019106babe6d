//! The meaning of a binary expression written without parentheses: which
//! tree of operator nodes a sequence `e0 op0 e1 op1 ... en` stands for, given
//! the operators' precedence and associativity, and the diagnostics for
//! `??` mixed with `&&`/`||`.

use vstd::prelude::*;

use crate::js::expressions::{spec_is_left_assoc, spec_precedence, Expr, Node};
use crate::js::{ErrorKind, ParseError};
use crate::lexer::{is_name_at, Token};
use crate::token_kinds::TokenKind;

verus! {

/// Operator `x`, standing left of operator `k`, binds tighter than `k`: it
/// has higher precedence, or the same precedence and groups to the left.
pub open spec fn tighter_left(x: TokenKind, k: TokenKind) -> bool {
    spec_precedence(x) > spec_precedence(k) || (spec_precedence(x) == spec_precedence(k)
        && spec_is_left_assoc(x))
}

/// Operator `x`, standing right of operator `k`, binds tighter than `k`: it
/// has higher precedence, or the same precedence and `k` groups to the
/// right.
pub open spec fn tighter_right(x: TokenKind, k: TokenKind) -> bool {
    spec_precedence(x) > spec_precedence(k) || (spec_precedence(x) == spec_precedence(k)
        && !spec_is_left_assoc(k))
}

/// The index of the operator that is the root of the tree for the operators
/// `ops[a..b)`: the last operator that binds no tighter than every operator
/// before it (the loosest one; the last of equals for left-associative
/// operators, the first for right-associative ones).
pub open spec fn spec_root(ops: Seq<TokenKind>, a: int, b: int) -> int
    decreases b - a,
{
    if b - a <= 1 {
        a
    } else {
        let r = spec_root(ops, a, b - 1);
        if tighter_left(ops[r], ops[b - 1]) {
            b - 1
        } else {
            r
        }
    }
}

/// Whether `op` builds a logical (`&&`, `||`, `??`) node.
pub open spec fn spec_is_logical(op: TokenKind) -> bool {
    op == TokenKind::ampamp || op == TokenKind::pipepipe || op == TokenKind::questionquestion
}

/// The node an operator builds from its two operands, spanning
/// `[start, end)`: a logical expression for `&&`, `||`, `??`; for the `as`
/// operator a TypeScript `as` expression, or under Flow `as const` when the
/// type is the name `const` and a plain `as` expression otherwise; a binary
/// expression for every other operator.
pub open spec fn spec_bin(
    toks: Seq<Token>,
    ts: bool,
    op: TokenKind,
    l: Expr,
    r: Expr,
    start: usize,
    end: usize,
) -> Expr {
    let node = if spec_is_logical(op) {
        Node::LogicalExpression { operator: op, left: Box::new(l), right: Box::new(r) }
    } else if op == TokenKind::as_operator {
        if ts {
            Node::TSAsExpression { expression: Box::new(l), type_annotation: Box::new(r) }
        } else if spec_is_const_type(toks, r) {
            Node::AsConstExpression { expression: Box::new(l) }
        } else {
            Node::AsExpression { expression: Box::new(l), type_annotation: Box::new(r) }
        }
    } else {
        Node::BinaryExpression { operator: op, left: Box::new(l), right: Box::new(r) }
    };
    Expr { parens: 0, node, start, end }
}

/// Whether a type is the bare name `const`: a generic type without type
/// arguments whose name is the reserved word `const` or an identifier
/// spelling it.
pub open spec fn spec_is_const_type(toks: Seq<Token>, r: Expr) -> bool {
    match r.node {
        Node::GenericTypeAnnotation { id, type_parameters: None } => match id.node {
            Node::Identifier(i) => 0 <= i < toks.len() && (toks[i as int].kind == TokenKind::rw_const
                || is_name_at(toks, i as int, seq![99u8, 111u8, 110u8, 115u8, 116u8])),
            _ => false,
        },
        _ => false,
    }
}

/// The operands, their source extents and the operators of a binary
/// expression, in source order, with the diagnostics the operands raised.
pub ghost struct BinaryScan {
    pub operands: Seq<Expr>,
    pub starts: Seq<usize>,
    pub ends: Seq<usize>,
    pub ops: Seq<TokenKind>,
    pub errors: Seq<ParseError>,
}

impl BinaryScan {
    /// Operand `i` stands between operators `i - 1` and `i`.
    pub open spec fn wf(self) -> bool {
        &&& self.operands.len() == self.ops.len() + 1
        &&& self.starts.len() == self.operands.len()
        &&& self.ends.len() == self.operands.len()
    }

    /// The scan with one more operator and the operand after it.
    pub open spec fn extend(
        self,
        op: TokenKind,
        e: Expr,
        start: usize,
        end: usize,
        errs: Seq<ParseError>,
    ) -> BinaryScan {
        BinaryScan {
            operands: self.operands.push(e),
            starts: self.starts.push(start),
            ends: self.ends.push(end),
            ops: self.ops.push(op),
            errors: self.errors + errs,
        }
    }
}

/// The tree for operands `a..=b` and the operators between them: operand
/// `a` itself when `a == b`; otherwise the root operator's node over the
/// trees on either side of it, spanning from the start of operand `a` to the
/// end of operand `b`.
pub open spec fn spec_tree(toks: Seq<Token>, ts: bool, s: BinaryScan, a: int, b: int) -> Expr
    decreases b - a,
{
    if a >= b {
        s.operands[a]
    } else {
        let k = spec_root(s.ops, a, b);
        if a <= k < b {
            spec_bin(
                toks,
                ts,
                s.ops[k],
                spec_tree(toks, ts, s, a, k),
                spec_tree(toks, ts, s, k + 1, b),
                s.starts[a],
                s.ends[b],
            )
        } else {
            s.operands[a]
        }
    }
}

/// One operator node built while folding: its operator, the start of its
/// left operand's node and the end of its right operand's node.
pub type Fold = (TokenKind, usize, usize);

/// The operator nodes of the tree for operands `a..=b`, in the order they
/// are built: both subtrees (left first), then the root.
pub open spec fn spec_folds(toks: Seq<Token>, ts: bool, s: BinaryScan, a: int, b: int) -> Seq<Fold>
    decreases b - a,
{
    if a >= b {
        Seq::empty()
    } else {
        let k = spec_root(s.ops, a, b);
        if a <= k < b {
            spec_folds(toks, ts, s, a, k) + spec_folds(toks, ts, s, k + 1, b) + seq![
                (s.ops[k], spec_tree(toks, ts, s, a, k).start, spec_tree(toks, ts, s, k + 1, b).end),
            ]
        } else {
            Seq::empty()
        }
    }
}

/// Whether a `??` node is among `fs`.
pub open spec fn spec_has_nullish(fs: Seq<Fold>) -> bool {
    exists|j: int| 0 <= j < fs.len() && fs[j].0 == TokenKind::questionquestion
}

/// Whether a `&&` or `||` node is among `fs`.
pub open spec fn spec_has_boolean(fs: Seq<Fold>) -> bool {
    exists|j: int|
        0 <= j < fs.len() && (fs[j].0 == TokenKind::ampamp || fs[j].0 == TokenKind::pipepipe)
}

/// Whether building the logical node `f` after the nodes `prev` mixes `??`
/// with `&&`/`||`.
pub open spec fn spec_mixes(prev: Seq<Fold>, f: Fold) -> bool {
    spec_is_logical(f.0) && ((f.0 != TokenKind::questionquestion && spec_has_nullish(prev)) || (
    f.0 == TokenKind::questionquestion && spec_has_boolean(prev)))
}

/// The diagnostics for mixing `??` with `&&`/`||`: one for each logical
/// node built after a node of the other family, covering its operands.
pub open spec fn spec_mix_errors(fs: Seq<Fold>) -> Seq<ParseError>
    decreases fs.len(),
{
    if fs.len() == 0 {
        Seq::empty()
    } else {
        let prev = fs.drop_last();
        let f = fs.last();
        if spec_mixes(prev, f) {
            spec_mix_errors(prev).push(
                ParseError { kind: ErrorKind::MixingNullishAndLogical, start: f.1, end: f.2 },
            )
        } else {
            spec_mix_errors(prev)
        }
    }
}

// ---------------------------------------------------------------------------
// Lemmas.
// ---------------------------------------------------------------------------

/// Binding tighter from the left is transitive.
pub proof fn lemma_tighter_left_trans(x: TokenKind, y: TokenKind, z: TokenKind)
    requires
        tighter_left(x, y),
        tighter_left(y, z),
    ensures
        tighter_left(x, z),
{
}

/// Binding tighter from the right is transitive.
pub proof fn lemma_tighter_right_trans(x: TokenKind, y: TokenKind, z: TokenKind)
    requires
        tighter_right(x, y),
        tighter_right(y, z),
    ensures
        tighter_right(x, z),
{
}

/// The root lies among the operators it is chosen from.
pub proof fn lemma_root_in_range(ops: Seq<TokenKind>, a: int, b: int)
    requires
        a < b,
    ensures
        a <= spec_root(ops, a, b) < b,
    decreases b - a,
{
    if b - a > 1 {
        lemma_root_in_range(ops, a, b - 1);
    }
}

/// Law: the root of the tree of a binary expression is the one operator
/// that every operator to its left binds tighter than (from the left) and
/// every operator to its right binds tighter than (from the right); so
/// left-associative operators of equal precedence group to the left and
/// `**` groups to the right.
pub proof fn law_root_binds_loosest(ops: Seq<TokenKind>, a: int, b: int, k: int)
    requires
        a <= k < b,
        forall|t: int| a <= t < k ==> tighter_left(#[trigger] ops[t], ops[k]),
        forall|t: int| k < t < b ==> tighter_right(#[trigger] ops[t], ops[k]),
    ensures
        spec_root(ops, a, b) == k,
    decreases b - a,
{
    if b - a > 1 {
        if b - 1 == k {
            lemma_root_in_range(ops, a, b - 1);
            let r = spec_root(ops, a, b - 1);
            assert(tighter_left(ops[r], ops[k]));
        } else {
            law_root_binds_loosest(ops, a, b - 1, k);
            assert(tighter_right(ops[b - 1], ops[k]));
        }
    }
}

/// The root of `ops[a..b)` does not depend on operators outside that range.
pub proof fn lemma_root_prefix(ops: Seq<TokenKind>, ops2: Seq<TokenKind>, a: int, b: int)
    requires
        0 <= a,
        b <= ops.len(),
        b <= ops2.len(),
        forall|t: int| a <= t < b ==> ops[t] == ops2[t],
    ensures
        spec_root(ops, a, b) == spec_root(ops2, a, b),
    decreases b - a,
{
    if b - a > 1 {
        lemma_root_prefix(ops, ops2, a, b - 1);
        lemma_root_in_range(ops, a, b - 1);
    }
}

/// Whether `s2` agrees with `s` on operands `0..=b` and operators `0..b`.
pub open spec fn scans_agree(s: BinaryScan, s2: BinaryScan, b: int) -> bool {
    &&& s.wf()
    &&& s2.wf()
    &&& 0 <= b < s.operands.len()
    &&& b < s2.operands.len()
    &&& forall|t: int| 0 <= t <= b ==> s.operands[t] == s2.operands[t]
    &&& forall|t: int| 0 <= t <= b ==> s.starts[t] == s2.starts[t]
    &&& forall|t: int| 0 <= t <= b ==> s.ends[t] == s2.ends[t]
    &&& forall|t: int| 0 <= t < b ==> s.ops[t] == s2.ops[t]
}

/// The tree and the nodes built for operands `a..=b` depend only on those
/// operands and the operators between them.
pub proof fn lemma_tree_prefix(toks: Seq<Token>, ts: bool, s: BinaryScan, s2: BinaryScan, a: int, b: int)
    requires
        0 <= a <= b,
        scans_agree(s, s2, b),
    ensures
        spec_tree(toks, ts, s, a, b) == spec_tree(toks, ts, s2, a, b),
        spec_folds(toks, ts, s, a, b) == spec_folds(toks, ts, s2, a, b),
    decreases b - a,
{
    if a < b {
        lemma_root_prefix(s.ops, s2.ops, a, b);
        lemma_root_in_range(s.ops, a, b);
        let k = spec_root(s.ops, a, b);
        lemma_tree_prefix(toks, ts, s, s2, a, k);
        lemma_tree_prefix(toks, ts, s, s2, k + 1, b);
    }
}

/// Building the node of the root operator `k` of operands `a..=b` from the
/// trees on either side of it gives the tree of `a..=b`, and appends that
/// node to the nodes built for the two sides.
pub proof fn lemma_fold_step(toks: Seq<Token>, ts: bool, s: BinaryScan, a: int, k: int, b: int)
    requires
        s.wf(),
        0 <= a <= k < b,
        b < s.operands.len(),
        forall|t: int| a <= t < k ==> tighter_left(#[trigger] s.ops[t], s.ops[k]),
        forall|t: int| k < t < b ==> tighter_right(#[trigger] s.ops[t], s.ops[k]),
    ensures
        spec_tree(toks, ts, s, a, b) == spec_bin(
            toks,
            ts,
            s.ops[k],
            spec_tree(toks, ts, s, a, k),
            spec_tree(toks, ts, s, k + 1, b),
            s.starts[a],
            s.ends[b],
        ),
        spec_folds(toks, ts, s, a, b) == spec_folds(toks, ts, s, a, k) + spec_folds(toks, ts, s, k + 1, b)
            + seq![(s.ops[k], spec_tree(toks, ts, s, a, k).start, spec_tree(toks, ts, s, k + 1, b).end)],
{
    law_root_binds_loosest(s.ops, a, b, k);
}

/// Adding a node to those built so far: `??` is among them afterwards iff
/// it was before or the node is a `??`; likewise for `&&`/`||`.
pub proof fn lemma_has_push(fs: Seq<Fold>, f: Fold)
    ensures
        spec_has_nullish(fs.push(f)) == (spec_has_nullish(fs) || f.0 == TokenKind::questionquestion),
        spec_has_boolean(fs.push(f)) == (spec_has_boolean(fs) || f.0 == TokenKind::ampamp || f.0
            == TokenKind::pipepipe),
        spec_mix_errors(fs.push(f)) == (if spec_mixes(fs, f) {
            spec_mix_errors(fs).push(
                ParseError { kind: ErrorKind::MixingNullishAndLogical, start: f.1, end: f.2 },
            )
        } else {
            spec_mix_errors(fs)
        }),
{
    let g = fs.push(f);
    assert(g.drop_last() =~= fs);
    assert(g.last() == f);
    if spec_has_nullish(fs) {
        let j = choose|j: int| 0 <= j < fs.len() && fs[j].0 == TokenKind::questionquestion;
        assert(g[j] == fs[j]);
    }
    if spec_has_boolean(fs) {
        let j = choose|j: int|
            0 <= j < fs.len() && (fs[j].0 == TokenKind::ampamp || fs[j].0 == TokenKind::pipepipe);
        assert(g[j] == fs[j]);
    }
    if f.0 == TokenKind::questionquestion {
        assert(g[fs.len() as int] == f);
    }
    if f.0 == TokenKind::ampamp || f.0 == TokenKind::pipepipe {
        assert(g[fs.len() as int] == f);
    }
    if spec_has_nullish(g) && f.0 != TokenKind::questionquestion {
        let j = choose|j: int| 0 <= j < g.len() && g[j].0 == TokenKind::questionquestion;
        assert(j < fs.len());
        assert(fs[j] == g[j]);
    }
    if spec_has_boolean(g) && !(f.0 == TokenKind::ampamp || f.0 == TokenKind::pipepipe) {
        let j = choose|j: int|
            0 <= j < g.len() && (g[j].0 == TokenKind::ampamp || g[j].0 == TokenKind::pipepipe);
        assert(j < fs.len());
        assert(fs[j] == g[j]);
    }
}


/// Whether a node of operator `x` is among `fs`.
pub open spec fn fold_has(fs: Seq<Fold>, x: TokenKind) -> bool {
    exists|j: int| 0 <= j < fs.len() && #[trigger] fs[j].0 == x
}

/// Whether operator `x` is among `ops[a..b)`.
pub open spec fn ops_have(ops: Seq<TokenKind>, a: int, b: int, x: TokenKind) -> bool {
    exists|t: int| a <= t < b && #[trigger] ops[t] == x
}

/// Each operator among `ops[a..b)` gives one node: the nodes built for
/// operands `a..=b` are as many as the operators, and an operator kind
/// occurs among the nodes iff it occurs among the operators.
pub proof fn lemma_folds_ops(toks: Seq<Token>, ts: bool, s: BinaryScan, a: int, b: int)
    requires
        s.wf(),
        0 <= a <= b,
        b < s.operands.len(),
    ensures
        spec_folds(toks, ts, s, a, b).len() == b - a,
        forall|x: TokenKind|
            #[trigger] fold_has(spec_folds(toks, ts, s, a, b), x) <==> ops_have(s.ops, a, b, x),
    decreases b - a,
{
    if a < b {
        lemma_root_in_range(s.ops, a, b);
        let k = spec_root(s.ops, a, b);
        lemma_folds_ops(toks, ts, s, a, k);
        lemma_folds_ops(toks, ts, s, k + 1, b);
        let f1 = spec_folds(toks, ts, s, a, k);
        let f2 = spec_folds(toks, ts, s, k + 1, b);
        let f = (s.ops[k], spec_tree(toks, ts, s, a, k).start, spec_tree(toks, ts, s, k + 1, b).end);
        let fs = spec_folds(toks, ts, s, a, b);
        assert(fs == f1 + f2 + seq![f]);
        assert forall|x: TokenKind| #[trigger] fold_has(fs, x) <==> ops_have(s.ops, a, b, x) by {
            if fold_has(fs, x) {
                let j = choose|j: int| 0 <= j < fs.len() && #[trigger] fs[j].0 == x;
                if j < f1.len() {
                    assert(fs[j] == f1[j]);
                    assert(fold_has(f1, x));
                    let t = choose|t: int| a <= t < k && #[trigger] s.ops[t] == x;
                    assert(a <= t < b && s.ops[t] == x);
                    assert(ops_have(s.ops, a, b, x));
                } else if j < f1.len() + f2.len() {
                    assert(fs[j] == f2[j - f1.len()]);
                    assert(fold_has(f2, x));
                    let t = choose|t: int| k + 1 <= t < b && #[trigger] s.ops[t] == x;
                    assert(a <= t < b && s.ops[t] == x);
                    assert(ops_have(s.ops, a, b, x));
                } else {
                    assert(fs[j] == f);
                    assert(a <= k < b && s.ops[k] == x);
                    assert(ops_have(s.ops, a, b, x));
                }
            }
            if ops_have(s.ops, a, b, x) {
                let t = choose|t: int| a <= t < b && #[trigger] s.ops[t] == x;
                if t < k {
                    assert(ops_have(s.ops, a, k, x));
                    assert(fold_has(f1, x));
                    let j = choose|j: int| 0 <= j < f1.len() && #[trigger] f1[j].0 == x;
                    assert(fs[j] == f1[j]);
                    assert(fs[j].0 == x);
                    assert(fold_has(fs, x));
                } else if t > k {
                    assert(ops_have(s.ops, k + 1, b, x));
                    assert(fold_has(f2, x));
                    let j = choose|j: int| 0 <= j < f2.len() && #[trigger] f2[j].0 == x;
                    assert(fs[f1.len() + j as int] == f2[j]);
                    assert(fs[f1.len() + j as int].0 == x);
                    assert(fold_has(fs, x));
                } else {
                    assert(fs[f1.len() + f2.len() as int] == f);
                    assert(fs[f1.len() + f2.len() as int].0 == x);
                    assert(fold_has(fs, x));
                }
            }
        }
    }
}

/// A mixing diagnostic arises among the nodes `fs` iff both a `??` node
/// and a `&&`/`||` node are among them.
pub proof fn lemma_mix_errors_iff(fs: Seq<Fold>)
    ensures
        spec_mix_errors(fs).len() > 0 <==> (spec_has_nullish(fs) && spec_has_boolean(fs)),
    decreases fs.len(),
{
    if fs.len() > 0 {
        let prev = fs.drop_last();
        let f = fs.last();
        lemma_mix_errors_iff(prev);
        assert(prev.push(f) =~= fs);
        lemma_has_push(prev, f);
    }
}

/// Law: in a binary expression written without parentheses, mixing `??`
/// with `&&` or `||` is reported exactly when the expression contains both
/// `??` and one of `&&`, `||`.
pub proof fn law_mixing_reported_iff_both(toks: Seq<Token>, ts: bool, s: BinaryScan)
    requires
        s.wf(),
    ensures
        spec_mix_errors(spec_folds(toks, ts, s, 0, s.ops.len() as int)).len() > 0 <==> (
        (exists|t: int| 0 <= t < s.ops.len() && s.ops[t] == TokenKind::questionquestion)
            && (exists|t: int|
            0 <= t < s.ops.len() && (s.ops[t] == TokenKind::ampamp || s.ops[t]
                == TokenKind::pipepipe))),
{
    let n = s.ops.len() as int;
    let fs = spec_folds(toks, ts, s, 0, n);
    lemma_folds_ops(toks, ts, s, 0, n);
    lemma_mix_errors_iff(fs);
    let qq = TokenKind::questionquestion;
    let aa = TokenKind::ampamp;
    let pp = TokenKind::pipepipe;
    assert(fold_has(fs, qq) <==> ops_have(s.ops, 0, n, qq));
    assert(fold_has(fs, aa) <==> ops_have(s.ops, 0, n, aa));
    assert(fold_has(fs, pp) <==> ops_have(s.ops, 0, n, pp));
    assert(spec_has_nullish(fs) <==> fold_has(fs, qq));
    assert(spec_has_boolean(fs) <==> (fold_has(fs, aa) || fold_has(fs, pp))) by {
        if spec_has_boolean(fs) {
            let j = choose|j: int| 0 <= j < fs.len() && (fs[j].0 == aa || fs[j].0 == pp);
            if fs[j].0 == aa {
                assert(fold_has(fs, aa));
            } else {
                assert(fold_has(fs, pp));
            }
        }
    }
    assert((exists|t: int| 0 <= t < n && (s.ops[t] == aa || s.ops[t] == pp)) <==> (ops_have(s.ops, 0, n, aa) || ops_have(s.ops, 0, n, pp))) by {
        if exists|t: int| 0 <= t < n && (s.ops[t] == aa || s.ops[t] == pp) {
            let t = choose|t: int| 0 <= t < n && (s.ops[t] == aa || s.ops[t] == pp);
            if s.ops[t] == aa {
                assert(ops_have(s.ops, 0, n, aa));
            } else {
                assert(ops_have(s.ops, 0, n, pp));
            }
        }
    }
    assert((exists|t: int| 0 <= t < n && s.ops[t] == qq) <==> ops_have(s.ops, 0, n, qq));
}

/// Whether `k` is a multiplicative operator: `*`, `/` or `%`.
pub open spec fn spec_is_multiplicative(k: TokenKind) -> bool {
    k == TokenKind::star || k == TokenKind::slash || k == TokenKind::percent
}

/// Whether `k` is an additive operator: `+` or `-`.
pub open spec fn spec_is_additive(k: TokenKind) -> bool {
    k == TokenKind::plus || k == TokenKind::minus
}

/// Law: `*`, `/` and `%` share one precedence level, and no other operator
/// is on it; that level binds strictly tighter than `+` and `-`, which
/// share a level of their own. So in `a + b % c` and `a % b + c` the
/// multiplicative operator is never the root: the additive one is, on
/// either side.
pub proof fn law_multiplicative_binds_tighter(m: TokenKind, a: TokenKind, k: TokenKind)
    requires
        spec_is_multiplicative(m),
        spec_is_additive(a),
    ensures
        spec_precedence(m) == spec_precedence(TokenKind::star),
        spec_precedence(a) == spec_precedence(TokenKind::plus),
        spec_precedence(k) == spec_precedence(TokenKind::star) <==> spec_is_multiplicative(k),
        spec_precedence(k) == spec_precedence(TokenKind::plus) <==> spec_is_additive(k),
        spec_precedence(m) > spec_precedence(a),
        tighter_left(m, a),
        tighter_right(m, a),
        !tighter_left(a, m),
        !tighter_right(a, m),
        spec_root(seq![a, m], 0, 2) == 0,
        spec_root(seq![m, a], 0, 2) == 1,
{
    reveal_with_fuel(spec_root, 3);
}

/// Law: the binary operators fall into these levels, from loosest to
/// tightest binding: `??`; `||`; `&&`; `|`; `^`; `&`; the equality
/// operators; the relational operators with `in`, `instanceof` and `as`;
/// the shifts; `+ -`; `* / %`; `**`. Two operators share a precedence
/// exactly when they are on one level, and each level binds strictly
/// tighter than the one before it.
pub proof fn law_precedence_levels(k: TokenKind)
    ensures
        0 < spec_precedence(TokenKind::questionquestion),
        spec_precedence(TokenKind::questionquestion) < spec_precedence(TokenKind::pipepipe),
        spec_precedence(TokenKind::pipepipe) < spec_precedence(TokenKind::ampamp),
        spec_precedence(TokenKind::ampamp) < spec_precedence(TokenKind::pipe),
        spec_precedence(TokenKind::pipe) < spec_precedence(TokenKind::caret),
        spec_precedence(TokenKind::caret) < spec_precedence(TokenKind::amp),
        spec_precedence(TokenKind::amp) < spec_precedence(TokenKind::equalequal),
        spec_precedence(TokenKind::equalequal) < spec_precedence(TokenKind::less),
        spec_precedence(TokenKind::less) < spec_precedence(TokenKind::lessless),
        spec_precedence(TokenKind::lessless) < spec_precedence(TokenKind::plus),
        spec_precedence(TokenKind::plus) < spec_precedence(TokenKind::star),
        spec_precedence(TokenKind::star) < spec_precedence(TokenKind::starstar),
        spec_precedence(k) == spec_precedence(TokenKind::questionquestion) <==> k == TokenKind::questionquestion,
        spec_precedence(k) == spec_precedence(TokenKind::pipepipe) <==> k == TokenKind::pipepipe,
        spec_precedence(k) == spec_precedence(TokenKind::ampamp) <==> k == TokenKind::ampamp,
        spec_precedence(k) == spec_precedence(TokenKind::pipe) <==> k == TokenKind::pipe,
        spec_precedence(k) == spec_precedence(TokenKind::caret) <==> k == TokenKind::caret,
        spec_precedence(k) == spec_precedence(TokenKind::amp) <==> k == TokenKind::amp,
        spec_precedence(k) == spec_precedence(TokenKind::equalequal) <==> (k == TokenKind::equalequal
            || k == TokenKind::exclaimequal || k == TokenKind::equalequalequal
            || k == TokenKind::exclaimequalequal),
        spec_precedence(k) == spec_precedence(TokenKind::less) <==> (k == TokenKind::less
            || k == TokenKind::greater || k == TokenKind::lessequal || k == TokenKind::greaterequal
            || k == TokenKind::rw_in || k == TokenKind::rw_instanceof || k == TokenKind::as_operator),
        spec_precedence(k) == spec_precedence(TokenKind::lessless) <==> (k == TokenKind::lessless
            || k == TokenKind::greatergreater || k == TokenKind::greatergreatergreater),
        spec_precedence(k) == spec_precedence(TokenKind::plus) <==> spec_is_additive(k),
        spec_precedence(k) == spec_precedence(TokenKind::star) <==> spec_is_multiplicative(k),
        spec_precedence(k) == spec_precedence(TokenKind::starstar) <==> k == TokenKind::starstar,
{
}

} // verus!
