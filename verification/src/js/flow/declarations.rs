//! Flow declarations: the tests that recognize `component`, `hook` and
//! `record` declarations, and the parsing of Flow `enum` declarations and
//! type aliases (`type`, `declare type`, `opaque type`).
//!
//! Syntax tree nodes refer to names and literal values by the index of the
//! token that holds them.

use vstd::prelude::*;

use crate::js::expressions::{boxed, spec_boxed, spec_prev_end, Expr, Node, NodeList};
use crate::js::flow::function_types::{
    list_from_vec, spec_checks_name, spec_function_node, spec_function_type_params, spec_hook_node, spec_list_of,
    spec_predicate_flow, spec_return_type,
};
use crate::js::flow::match_::{spec_as_name, spec_binding_keyword, spec_let_name, BindingKind};
use crate::js::expressions::{spec_constructor_name, spec_property_name};
use crate::js::flow::object_types::{spec_object_type, spec_static_name};
use crate::js::flow::params::{spec_implements_entry, spec_type_params};
use crate::js::flow::types::{spec_generic_type, spec_primary_type, spec_type, spec_type_annotation_flow, UnsupportedSyntax};
use crate::js::{spec_eat_semi, ErrorKind, JSParserImpl, ParseError, ParserOptions};
use crate::lexer::{is_name_at, step, LexerState, Token};
use crate::token_kinds::{is_reserved_word, spec_is_reserved_word, TokenKind};

verus! {

// ---------------------------------------------------------------------------
// Contextual keywords.
// ---------------------------------------------------------------------------

/// The name `component`.
pub open spec fn spec_component_name() -> Seq<u8> {
    seq![99u8, 111u8, 109u8, 112u8, 111u8, 110u8, 101u8, 110u8, 116u8]
}

/// The name `hook`.
pub open spec fn spec_hook_name() -> Seq<u8> {
    seq![104u8, 111u8, 111u8, 107u8]
}

/// The name `record`.
pub open spec fn spec_record_name() -> Seq<u8> {
    seq![114u8, 101u8, 99u8, 111u8, 114u8, 100u8]
}

/// The name `async`.
pub open spec fn spec_async_name() -> Seq<u8> {
    seq![97u8, 115u8, 121u8, 110u8, 99u8]
}

/// The name `string`.
pub open spec fn spec_string_name() -> Seq<u8> {
    seq![115u8, 116u8, 114u8, 105u8, 110u8, 103u8]
}

/// The name `number`.
pub open spec fn spec_number_name() -> Seq<u8> {
    seq![110u8, 117u8, 109u8, 98u8, 101u8, 114u8]
}

/// The name `bigint`.
pub open spec fn spec_bigint_name() -> Seq<u8> {
    seq![98u8, 105u8, 103u8, 105u8, 110u8, 116u8]
}

/// The name `boolean`.
pub open spec fn spec_boolean_name() -> Seq<u8> {
    seq![98u8, 111u8, 111u8, 108u8, 101u8, 97u8, 110u8]
}

/// The name `symbol`.
pub open spec fn spec_symbol_name() -> Seq<u8> {
    seq![115u8, 121u8, 109u8, 98u8, 111u8, 108u8]
}

/// The name `of`.
pub open spec fn spec_of_name() -> Seq<u8> {
    seq![111u8, 102u8]
}

/// Whether the current token is the keyword `name` followed, on the same
/// line, by an identifier: the start of a `component`, `hook` or `record`
/// declaration.
pub open spec fn spec_starts_named_declaration(s: LexerState, name: Seq<u8>) -> bool {
    s.is_name(name) && s.lookahead1() == Some(TokenKind::identifier)
}

/// Whether the current token is `async` followed, on the same line, by the
/// start of a declaration introduced by `name`.
pub open spec fn spec_starts_async_declaration(s: LexerState, name: Seq<u8>) -> bool {
    let t = s.at(s.next_pos());
    !t.cur().new_line_before && spec_starts_named_declaration(t, name)
}

/// Whether the token after the current `static`/`async` inside a record
/// body shows the keyword to be a modifier rather than a property name.
pub open spec fn spec_is_record_modifier(s: LexerState) -> bool {
    match s.lookahead1() {
        None => false,
        Some(k) => !(k == TokenKind::colon || k == TokenKind::less || k == TokenKind::l_paren
            || k == TokenKind::r_brace || k == TokenKind::eof),
    }
}


// ---------------------------------------------------------------------------
// Enum declarations.
// ---------------------------------------------------------------------------

/// The kind of a Flow `enum`: the type of its members' values.
#[derive(Clone, Copy, Debug, PartialEq, Eq, Structural)]
pub enum EnumKind {
    String,
    Number,
    BigInt,
    Boolean,
    Symbol,
}

/// The name of an enum kind as written after `of`.
pub open spec fn spec_enum_kind_str(kind: EnumKind) -> Seq<char> {
    match kind {
        EnumKind::String => "string"@,
        EnumKind::Number => "number"@,
        EnumKind::BigInt => "bigint"@,
        EnumKind::Boolean => "boolean"@,
        EnumKind::Symbol => "symbol"@,
    }
}

/// The name of an enum kind as written after `of`.
pub fn enum_kind_str_flow(kind: EnumKind) -> (r: &'static str)
    ensures
        r@ == spec_enum_kind_str(kind),
{
    match kind {
        EnumKind::String => "string",
        EnumKind::Number => "number",
        EnumKind::BigInt => "bigint",
        EnumKind::Boolean => "boolean",
        EnumKind::Symbol => "symbol",
    }
}

/// The initializer of an enum member. Literals are given by the index of
/// their token.
#[derive(Clone, Copy, Debug, PartialEq, Eq, Structural)]
pub enum EnumInit {
    /// No initializer.
    Defaulted,
    /// `true` or `false`.
    Boolean(bool),
    /// A string literal.
    String(usize),
    /// A numeric literal, and whether a `-` precedes it.
    Number(usize, bool),
    /// A bigint literal.
    BigInt(usize),
}

/// One member of an enum body: the index of its name's token, its
/// initializer, and its source range.
#[derive(Clone, Copy, Debug, PartialEq, Eq, Structural)]
pub struct EnumMember {
    pub id: usize,
    pub init: EnumInit,
    pub start: usize,
    pub end: usize,
}

/// The enum kind a member's initializer implies; `None` when it has none.
pub open spec fn spec_member_kind(m: EnumMember) -> Option<EnumKind> {
    match m.init {
        EnumInit::Defaulted => None,
        EnumInit::Boolean(_) => Some(EnumKind::Boolean),
        EnumInit::String(_) => Some(EnumKind::String),
        EnumInit::Number(_, _) => Some(EnumKind::Number),
        EnumInit::BigInt(_) => Some(EnumKind::BigInt),
    }
}

/// The enum kind a member's initializer implies; `None` when it has none.
pub fn get_member_enum_kind_flow(member: &EnumMember) -> (r: Option<EnumKind>)
    ensures
        r == spec_member_kind(*member),
{
    match member.init {
        EnumInit::Defaulted => None,
        EnumInit::Boolean(_) => Some(EnumKind::Boolean),
        EnumInit::String(_) => Some(EnumKind::String),
        EnumInit::Number(_, _) => Some(EnumKind::Number),
        EnumInit::BigInt(_) => Some(EnumKind::BigInt),
    }
}

/// Whether a member has an initializer.
pub open spec fn spec_uses_initializer(m: EnumMember) -> bool {
    !(m.init is Defaulted)
}

/// The body of an enum.
pub struct EnumBody {
    /// The kind: explicit, inferred from the first initializer, or `String`
    /// when neither gives one.
    pub kind: EnumKind,
    pub members: Vec<EnumMember>,
    /// Whether the kind was written with `of`.
    pub has_explicit_type: bool,
    /// Whether the body ends with the inexact `...`.
    pub has_unknown_members: bool,
    /// Source range, from `of` (when the kind is explicit) or `{` to `}`.
    pub start: usize,
    pub end: usize,
}

/// The abstract value of an enum body.
pub ghost struct EnumBodyView {
    pub kind: EnumKind,
    pub members: Seq<EnumMember>,
    pub has_explicit_type: bool,
    pub has_unknown_members: bool,
    pub start: usize,
    pub end: usize,
}

impl View for EnumBody {
    type V = EnumBodyView;

    open spec fn view(&self) -> EnumBodyView {
        EnumBodyView {
            kind: self.kind,
            members: self.members@,
            has_explicit_type: self.has_explicit_type,
            has_unknown_members: self.has_unknown_members,
            start: self.start,
            end: self.end,
        }
    }
}

/// An enum declaration: the index of its name's token, its body, whether it
/// is a `declare enum`, and its source range.
pub struct EnumDeclaration {
    pub id: usize,
    pub body: EnumBody,
    pub declare: bool,
    pub start: usize,
    pub end: usize,
}

/// The abstract value of an enum declaration.
pub ghost struct EnumDeclarationView {
    pub id: usize,
    pub body: EnumBodyView,
    pub declare: bool,
    pub start: usize,
    pub end: usize,
}

impl View for EnumDeclaration {
    type V = EnumDeclarationView;

    open spec fn view(&self) -> EnumDeclarationView {
        EnumDeclarationView {
            id: self.id,
            body: self.body@,
            declare: self.declare,
            start: self.start,
            end: self.end,
        }
    }
}

/// A diagnostic of the given kind covering the token `t`.
pub open spec fn err_at(kind: ErrorKind, t: Token) -> ParseError {
    ParseError { kind, start: t.start, end: t.end }
}

/// The enum member whose name is the identifier at `p`: `name`, or
/// `name = init` where `init` is `true`, `false`, a string, a bigint, or a
/// possibly negated number. Gives the member or the diagnostic, and the
/// position after it (or where the error was found).
pub open spec fn spec_enum_member(toks: Seq<Token>, p: int) -> (Result<EnumMember, ParseError>, int) {
    let q = step(toks, p);
    let start = toks[p].start;
    if toks[q].kind == TokenKind::equal {
        let v = step(toks, q);
        let t = toks[v];
        if t.kind == TokenKind::rw_true || t.kind == TokenKind::rw_false {
            (Ok(EnumMember {
                id: p as usize,
                init: EnumInit::Boolean(t.kind == TokenKind::rw_true),
                start,
                end: t.end,
            }), step(toks, v))
        } else if t.kind == TokenKind::string_literal {
            (Ok(EnumMember { id: p as usize, init: EnumInit::String(v as usize), start, end: t.end }),
            step(toks, v))
        } else if t.kind == TokenKind::minus {
            let n = step(toks, v);
            if toks[n].kind == TokenKind::numeric_literal {
                (Ok(EnumMember {
                    id: p as usize,
                    init: EnumInit::Number(n as usize, true),
                    start,
                    end: toks[n].end,
                }), step(toks, n))
            } else {
                (Err(err_at(ErrorKind::Expected(TokenKind::numeric_literal), toks[n])), n)
            }
        } else if t.kind == TokenKind::numeric_literal {
            (Ok(EnumMember {
                id: p as usize,
                init: EnumInit::Number(v as usize, false),
                start,
                end: t.end,
            }), step(toks, v))
        } else if t.kind == TokenKind::bigint_literal {
            (Ok(EnumMember { id: p as usize, init: EnumInit::BigInt(v as usize), start, end: t.end }),
            step(toks, v))
        } else {
            (Err(err_at(ErrorKind::EnumMemberInitializerExpected, t)), v)
        }
    } else {
        (Ok(EnumMember { id: p as usize, init: EnumInit::Defaulted, start, end: toks[p].end }), q)
    }
}

/// The members of an enum body from position `p` on, after the members
/// `acc` whose kind so far is `kind`: members separated by commas, up to
/// `}`, or to an inexact `...` that must be followed by `}`. A member whose
/// initializer contradicts the kind is an error. Gives the members, the
/// kind, whether `...` ended them, and the position of the closing token.
pub open spec fn spec_enum_members(
    toks: Seq<Token>,
    p: int,
    kind: Option<EnumKind>,
    acc: Seq<EnumMember>,
) -> (Result<(Seq<EnumMember>, Option<EnumKind>, bool), ParseError>, int)
    decreases toks.len() - p,
{
    if !(0 <= p < toks.len()) || toks[p].kind == TokenKind::r_brace {
        (Ok((acc, kind, false)), p)
    } else if toks[p].kind == TokenKind::dotdotdot {
        let q = step(toks, p);
        if toks[q].kind != TokenKind::r_brace {
            (Err(ParseError { kind: ErrorKind::EnumInexactNotLast, start: toks[p].start, end: toks[p].start }), q)
        } else {
            (Ok((acc, kind, true)), q)
        }
    } else if toks[p].kind != TokenKind::identifier {
        (Err(err_at(ErrorKind::Expected(TokenKind::identifier), toks[p])), p)
    } else {
        let (mr, q) = spec_enum_member(toks, p);
        match mr {
            Err(e) => (Err(e), q),
            Ok(m) => {
                let mk = spec_member_kind(m);
                if kind is Some && mk is Some && kind != mk {
                    (Err(ParseError {
                        kind: ErrorKind::EnumInitializerMismatch(mk.unwrap(), kind.unwrap()),
                        start: m.start,
                        end: m.end,
                    }), q)
                } else {
                    let kind2 = if kind is Some { kind } else { mk };
                    if toks[q].kind == TokenKind::comma && p < step(toks, q) {
                        spec_enum_members(toks, step(toks, q), kind2, acc.push(m))
                    } else {
                        (Ok((acc.push(m), kind2, false)), q)
                    }
                }
            },
        }
    }
}

/// The first member from index `i` on whose use of an initializer differs
/// from that of the first member.
pub open spec fn spec_first_inconsistent(ms: Seq<EnumMember>, i: int) -> Option<int>
    decreases ms.len() - i,
{
    if i < 0 || i >= ms.len() {
        None
    } else if spec_uses_initializer(ms[i]) != spec_uses_initializer(ms[0]) {
        Some(i)
    } else {
        spec_first_inconsistent(ms, i + 1)
    }
}

/// The enum body whose `{` is at `p`, given the explicit kind (if any) and
/// the start of the explicit `of` clause (if any). Members must consistently
/// all have initializers or none, and members without initializers are
/// allowed only in string and symbol enums.
pub open spec fn spec_enum_body(
    toks: Seq<Token>,
    p: int,
    opt_kind: Option<EnumKind>,
    explicit_type_start: Option<usize>,
) -> (Result<EnumBodyView, ParseError>, int) {
    let start = toks[p].start;
    let (mr, q) = spec_enum_members(toks, step(toks, p), opt_kind, Seq::empty());
    match mr {
        Err(e) => (Err(e), q),
        Ok((ms, kind, unknown)) => {
            if ms.len() > 0 && spec_first_inconsistent(ms, 0) is Some {
                let j = spec_first_inconsistent(ms, 0).unwrap();
                (Err(ParseError { kind: ErrorKind::EnumInconsistentInitializers, start: ms[j].start, end: ms[j].end }), q)
            } else if ms.len() > 0 && !spec_uses_initializer(ms[0]) && kind is Some
                && kind != Some(EnumKind::String) && kind != Some(EnumKind::Symbol) {
                (Err(ParseError { kind: ErrorKind::EnumMissingInitializers, start, end: start }), q)
            } else if toks[q].kind != TokenKind::r_brace {
                (Err(err_at(ErrorKind::Expected(TokenKind::r_brace), toks[q])), q)
            } else {
                (Ok(EnumBodyView {
                    kind: match kind {
                        Some(k) => k,
                        None => EnumKind::String,
                    },
                    members: ms,
                    has_explicit_type: explicit_type_start is Some,
                    has_unknown_members: unknown,
                    start: match explicit_type_start {
                        Some(s) => s,
                        None => start,
                    },
                    end: toks[q].end,
                }), step(toks, q))
            }
        },
    }
}

/// The optional `of <kind>` clause starting at `q`: the explicit kind (none
/// when `of` is followed by something else), the start of `of`, and the
/// position after the clause.
pub open spec fn spec_enum_explicit_type(toks: Seq<Token>, q: int) -> (Option<EnumKind>, Option<usize>, int) {
    if is_name_at(toks, q, spec_of_name()) {
        let k = step(toks, q);
        let s = Some(toks[q].start);
        if is_name_at(toks, k, spec_string_name()) {
            (Some(EnumKind::String), s, step(toks, k))
        } else if is_name_at(toks, k, spec_number_name()) {
            (Some(EnumKind::Number), s, step(toks, k))
        } else if is_name_at(toks, k, spec_bigint_name()) {
            (Some(EnumKind::BigInt), s, step(toks, k))
        } else if is_name_at(toks, k, spec_boolean_name()) {
            (Some(EnumKind::Boolean), s, step(toks, k))
        } else if is_name_at(toks, k, spec_symbol_name()) {
            (Some(EnumKind::Symbol), s, step(toks, k))
        } else {
            (None, s, k)
        }
    } else {
        (None, None, q)
    }
}

/// The enum declaration whose `enum` keyword is at `p`:
/// `enum Name [of kind] { members }`, spanning from `start`.
pub open spec fn spec_enum_declaration(toks: Seq<Token>, p: int, start: usize, declare: bool)
    -> (Result<EnumDeclarationView, ParseError>, int) {
    let i = step(toks, p);
    if toks[i].kind != TokenKind::identifier {
        (Err(err_at(ErrorKind::Expected(TokenKind::identifier), toks[i])), i)
    } else {
        let (kind, ets, r) = spec_enum_explicit_type(toks, step(toks, i));
        if toks[r].kind != TokenKind::l_brace {
            (Err(err_at(ErrorKind::Expected(TokenKind::l_brace), toks[r])), r)
        } else {
            let (br, e) = spec_enum_body(toks, r, kind, ets);
            match br {
                Err(x) => (Err(x), e),
                Ok(b) => (Ok(EnumDeclarationView { id: i as usize, body: b, declare, start, end: b.end }), e),
            }
        }
    }
}

impl JSParserImpl {
    /// Whether the current token starts a `component` declaration. The
    /// cursor does not move.
    pub fn check_component_declaration_flow(&mut self) -> (r: bool)
        ensures
            r == spec_starts_named_declaration(old(self).lexer@, spec_component_name()),
            final(self).lexer@ == old(self).lexer@,
            final(self).options == old(self).options,
            final(self).errors@ == old(self).errors@,
    {
        let name: [u8; 9] = [99u8, 111u8, 109u8, 112u8, 111u8, 110u8, 101u8, 110u8, 116u8];
        assert(name@ =~= spec_component_name());
        if !self.check_name(name.as_slice()) {
            return false;
        }
        self.lexer.lookahead1() == Some(TokenKind::identifier)
    }

    /// Whether the current `async` starts an `async component` declaration.
    /// The cursor does not move.
    pub fn check_async_component_flow(&mut self) -> (r: bool)
        requires
            old(self).lexer@.is_unescaped_name(spec_async_name()),
        ensures
            r == spec_starts_async_declaration(old(self).lexer@, spec_component_name()),
            final(self).lexer@ == old(self).lexer@,
            final(self).options == old(self).options,
            final(self).errors@ == old(self).errors@,
    {
        proof { use_type_invariant(&self.lexer); }
        let sp = self.lexer.save_point();
        self.advance();
        let result = !self.lexer.is_new_line_before_current_token()
            && self.check_component_declaration_flow();
        self.lexer.restore(sp);
        assert(self.lexer@ =~= old(self).lexer@);
        result
    }

    /// Whether the current `async` starts an `async hook` declaration. The
    /// cursor does not move.
    pub fn check_async_hook_flow(&mut self) -> (r: bool)
        requires
            old(self).lexer@.is_unescaped_name(spec_async_name()),
        ensures
            r == spec_starts_async_declaration(old(self).lexer@, spec_hook_name()),
            final(self).lexer@ == old(self).lexer@,
            final(self).options == old(self).options,
            final(self).errors@ == old(self).errors@,
    {
        proof { use_type_invariant(&self.lexer); }
        let sp = self.lexer.save_point();
        self.advance();
        let result = !self.lexer.is_new_line_before_current_token()
            && self.check_hook_declaration_flow();
        self.lexer.restore(sp);
        assert(self.lexer@ =~= old(self).lexer@);
        result
    }

    /// Whether the current token starts a `hook` declaration. The cursor
    /// does not move.
    pub fn check_hook_declaration_flow(&mut self) -> (r: bool)
        ensures
            r == spec_starts_named_declaration(old(self).lexer@, spec_hook_name()),
            final(self).lexer@ == old(self).lexer@,
            final(self).options == old(self).options,
            final(self).errors@ == old(self).errors@,
    {
        let name: [u8; 4] = [104u8, 111u8, 111u8, 107u8];
        assert(name@ =~= spec_hook_name());
        if !self.check_name(name.as_slice()) {
            return false;
        }
        self.lexer.lookahead1() == Some(TokenKind::identifier)
    }

    /// Whether the current token starts a `record` declaration. The cursor
    /// does not move.
    pub fn check_record_declaration_flow(&mut self) -> (r: bool)
        ensures
            r == spec_starts_named_declaration(old(self).lexer@, spec_record_name()),
            final(self).lexer@ == old(self).lexer@,
            final(self).options == old(self).options,
            final(self).errors@ == old(self).errors@,
    {
        let name: [u8; 6] = [114u8, 101u8, 99u8, 111u8, 114u8, 100u8];
        assert(name@ =~= spec_record_name());
        if !self.check_name(name.as_slice()) {
            return false;
        }
        self.lexer.lookahead1() == Some(TokenKind::identifier)
    }

    /// Whether the current `static`/`async` token in a record body is a
    /// modifier: it is, unless the next token (on the same line) is `:`,
    /// `<`, `(`, `}` or the end of input. The cursor does not move.
    pub fn is_record_modifier_keyword(&mut self) -> (r: bool)
        ensures
            r == spec_is_record_modifier(old(self).lexer@),
            final(self).lexer@ == old(self).lexer@,
            final(self).options == old(self).options,
            final(self).errors@ == old(self).errors@,
    {
        let next = match self.lexer.lookahead1() {
            None => return false,
            Some(k) => k,
        };
        !(next == TokenKind::colon || next == TokenKind::less || next == TokenKind::l_paren
            || next == TokenKind::r_brace || next == TokenKind::eof)
    }
}


/// Every member that has an initializer agrees with `kind`; with no kind,
/// no member has an initializer.
pub open spec fn members_agree(ms: Seq<EnumMember>, kind: Option<EnumKind>) -> bool {
    forall|i: int|
        0 <= i < ms.len() && (#[trigger] spec_member_kind(ms[i])) is Some ==> kind
            == spec_member_kind(ms[i])
}

/// Parsing members keeps them in agreement with the kind, which, once
/// known, does not change.
proof fn lemma_members_agree(toks: Seq<Token>, p: int, kind: Option<EnumKind>, acc: Seq<EnumMember>)
    requires
        members_agree(acc, kind),
    ensures
        spec_enum_members(toks, p, kind, acc).0 matches Ok((ms, k2, _)) ==> {
            &&& members_agree(ms, k2)
            &&& (kind is Some ==> k2 == kind)
            &&& acc.len() <= ms.len()
            &&& forall|i: int| 0 <= i < acc.len() ==> ms[i] == acc[i]
        },
    decreases toks.len() - p,
{
    if !(!(0 <= p < toks.len()) || toks[p].kind == TokenKind::r_brace || toks[p].kind
        == TokenKind::dotdotdot || toks[p].kind != TokenKind::identifier) {
        let (mr, q) = spec_enum_member(toks, p);
        if let Ok(m) = mr {
            let mk = spec_member_kind(m);
            if !(kind is Some && mk is Some && kind != mk) {
                let kind2 = if kind is Some {
                    kind
                } else {
                    mk
                };
                let acc2 = acc.push(m);
                assert forall|i: int|
                    0 <= i < acc2.len() && (#[trigger] spec_member_kind(acc2[i])) is Some implies kind2
                        == spec_member_kind(acc2[i]) by {
                    if i < acc.len() {
                        assert(acc2[i] == acc[i]);
                    }
                }
                if toks[q].kind == TokenKind::comma && p < step(toks, q) {
                    lemma_members_agree(toks, step(toks, q), kind2, acc2);
                }
            }
        }
    }
}

/// With no inconsistent member from `i` on, every member from `i` on uses
/// an initializer exactly when the first does.
proof fn lemma_first_inconsistent_none(ms: Seq<EnumMember>, i: int)
    requires
        0 <= i,
        spec_first_inconsistent(ms, i) is None,
    ensures
        forall|j: int| i <= j < ms.len() ==> spec_uses_initializer(#[trigger] ms[j]) == spec_uses_initializer(ms[0]),
    decreases ms.len() - i,
{
    if i < ms.len() {
        lemma_first_inconsistent_none(ms, i + 1);
    }
}

/// Law: an enum body that parses is consistent: all its members use an
/// initializer or none does; every initializer is of the body's kind; and
/// a body whose members have no initializers is a string or symbol enum.
pub proof fn law_enum_body_consistent(
    toks: Seq<Token>,
    p: int,
    opt_kind: Option<EnumKind>,
    explicit_type_start: Option<usize>,
)
    ensures
        spec_enum_body(toks, p, opt_kind, explicit_type_start).0 matches Ok(b) ==> {
            &&& forall|i: int, j: int|
                0 <= i < b.members.len() && 0 <= j < b.members.len() ==> spec_uses_initializer(
                    #[trigger] b.members[i],
                ) == spec_uses_initializer(#[trigger] b.members[j])
            &&& forall|i: int|
                0 <= i < b.members.len() && (#[trigger] spec_member_kind(b.members[i])) is Some
                    ==> spec_member_kind(b.members[i]) == Some(b.kind)
            &&& (b.members.len() > 0 && !spec_uses_initializer(b.members[0])) ==> (b.kind
                == EnumKind::String || b.kind == EnumKind::Symbol)
            &&& (opt_kind matches Some(k) ==> b.kind == k)
            &&& b.has_explicit_type == (explicit_type_start is Some)
        },
{
    lemma_members_agree(toks, step(toks, p), opt_kind, Seq::empty());
    let (mr, q) = spec_enum_members(toks, step(toks, p), opt_kind, Seq::empty());
    if let Ok((ms, kind, unknown)) = mr {
        if ms.len() > 0 && spec_first_inconsistent(ms, 0) is None {
            lemma_first_inconsistent_none(ms, 0);
        }
    }
}

impl JSParserImpl {
    /// Report that `true`, `false`, a string, a number or a bigint was
    /// expected as an enum member's initializer, at the current token.
    pub fn error_expected_enum_member_init(&mut self)
        ensures
            final(self).errors@ == old(self).errors@.push(
                err_at(ErrorKind::EnumMemberInitializerExpected, old(self).lexer@.cur()),
            ),
            final(self).lexer@ == old(self).lexer@,
            final(self).options == old(self).options,
    {
        self.error_cur(ErrorKind::EnumMemberInitializerExpected);
    }

    /// Parse one enum member, with the cursor at its name.
    pub fn parse_enum_member_flow(&mut self) -> (r: Option<EnumMember>)
        requires
            old(self).lexer@.kind == TokenKind::identifier,
        ensures
            ({
                let (res, q) = spec_enum_member(old(self).lexer@.tokens, old(self).lexer@.pos);
                &&& final(self).lexer@ == old(self).lexer@.at(q)
                &&& final(self).options == old(self).options
                &&& match res {
                    Ok(m) => r == Some(m) && final(self).errors@ == old(self).errors@,
                    Err(e) => r is None && final(self).errors@ == old(self).errors@.push(e),
                }
            }),
    {
        proof { use_type_invariant(&self.lexer); }
        let id = self.lexer.cur_index();
        let (id_start, id_end) = self.advance();
        if self.check_and_eat(TokenKind::equal) {
            let (_, tok_end) = self.lexer.cur_range();
            let member;
            if self.check2(TokenKind::rw_true, TokenKind::rw_false) {
                let value = self.check(TokenKind::rw_true);
                member = EnumMember { id, init: EnumInit::Boolean(value), start: id_start, end: tok_end };
            } else if self.check(TokenKind::string_literal) {
                let v = self.lexer.cur_index();
                member = EnumMember { id, init: EnumInit::String(v), start: id_start, end: tok_end };
            } else if self.check(TokenKind::minus) {
                self.advance();
                if self.check(TokenKind::numeric_literal) {
                    let (_, num_end) = self.lexer.cur_range();
                    let v = self.lexer.cur_index();
                    member = EnumMember { id, init: EnumInit::Number(v, true), start: id_start, end: num_end };
                } else {
                    self.need(TokenKind::numeric_literal);
                    return None;
                }
            } else if self.check(TokenKind::numeric_literal) {
                let v = self.lexer.cur_index();
                member = EnumMember { id, init: EnumInit::Number(v, false), start: id_start, end: tok_end };
            } else if self.check(TokenKind::bigint_literal) {
                let v = self.lexer.cur_index();
                member = EnumMember { id, init: EnumInit::BigInt(v), start: id_start, end: tok_end };
            } else {
                self.error_expected_enum_member_init();
                return None;
            }
            self.advance();
            Some(member)
        } else {
            Some(EnumMember { id, init: EnumInit::Defaulted, start: id_start, end: id_end })
        }
    }

    /// Parse the `{ ... }` body of an enum, with the cursor at `{`, given the
    /// kind written after `of` (if any) and where the `of` clause starts.
    pub fn parse_enum_body_flow(
        &mut self,
        opt_kind: Option<EnumKind>,
        explicit_type_start: Option<usize>,
    ) -> (r: Option<EnumBody>)
        requires
            old(self).lexer@.kind == TokenKind::l_brace,
        ensures
            ({
                let (res, q) = spec_enum_body(
                    old(self).lexer@.tokens,
                    old(self).lexer@.pos,
                    opt_kind,
                    explicit_type_start,
                );
                &&& final(self).lexer@ == old(self).lexer@.at(q)
                &&& final(self).options == old(self).options
                &&& match res {
                    Ok(b) => r matches Some(body) && body@ == b && final(self).errors@
                        == old(self).errors@,
                    Err(e) => r is None && final(self).errors@ == old(self).errors@.push(e),
                }
            }),
    {
        proof { use_type_invariant(&self.lexer); }
        let ghost toks = self.lexer@.tokens;
        let ghost p0 = self.lexer@.pos;
        let ghost kind0 = opt_kind;
        let ghost full = spec_enum_members(toks, step(toks, p0), kind0, Seq::empty());
        let (start, _) = self.advance();
        let mut cur_kind = opt_kind;
        let mut members: Vec<EnumMember> = Vec::new();
        let mut has_unknown_members = false;
        assert(members@ =~= Seq::<EnumMember>::empty());
        loop
            invariant_except_break
                old(self).lexer@.tokens == toks,
                old(self).lexer@.pos == p0,
                0 <= p0 < toks.len(),
                self.lexer@.tokens == toks,
                toks.len() > 0,
                toks.last().kind == TokenKind::eof,
                0 <= self.lexer@.pos < toks.len(),
                self.lexer@.kind == toks[self.lexer@.pos].kind,
                self.options == old(self).options,
                self.errors@ == old(self).errors@,
                start == toks[p0].start,
                full == spec_enum_members(toks, self.lexer@.pos, cur_kind, members@),
                full == spec_enum_members(toks, step(toks, p0), kind0, Seq::empty()),
                kind0 == opt_kind,
                !has_unknown_members,
            ensures
                old(self).lexer@.tokens == toks,
                old(self).lexer@.pos == p0,
                0 <= p0 < toks.len(),
                self.lexer@.tokens == toks,
                self.lexer@ == old(self).lexer@.at(full.1),
                self.options == old(self).options,
                self.errors@ == old(self).errors@,
                start == toks[p0].start,
                full.0 == Ok::<_, ParseError>((members@, cur_kind, has_unknown_members)),
                full == spec_enum_members(toks, step(toks, p0), kind0, Seq::empty()),
                kind0 == opt_kind,
            decreases toks.len() - self.lexer@.pos,
        {
            proof { use_type_invariant(&self.lexer); }
            if self.check(TokenKind::r_brace) {
                break;
            }
            if self.check(TokenKind::dotdotdot) {
                let (dot_start, _) = self.advance();
                if !self.check(TokenKind::r_brace) {
                    self.error_at(ErrorKind::EnumInexactNotLast, dot_start, dot_start);
                    return None;
                }
                has_unknown_members = true;
                break;
            }
            if !self.need(TokenKind::identifier) {
                return None;
            }
            let ghost p = self.lexer@.pos;
            let member = match self.parse_enum_member_flow() {
                Some(m) => m,
                None => return None,
            };
            proof { use_type_invariant(&self.lexer); }
            let opt_member_kind = get_member_enum_kind_flow(&member);
            match cur_kind {
                Some(kind) => {
                    match opt_member_kind {
                        Some(mk) => {
                            if kind != mk {
                                self.error_at(
                                    ErrorKind::EnumInitializerMismatch(mk, kind),
                                    member.start,
                                    member.end,
                                );
                                return None;
                            }
                        },
                        None => {},
                    }
                },
                None => {
                    cur_kind = opt_member_kind;
                },
            }
            members.push(member);
            proof { lemma_enum_member_advances(toks, p); }
            if !self.check_and_eat(TokenKind::comma) {
                break;
            }
        }
        proof { use_type_invariant(&self.lexer); }
        let ghost q = full.1;
        if members.len() > 0 {
            let uses_initializers = match members[0].init {
                EnumInit::Defaulted => false,
                _ => true,
            };
            let mut i: usize = 0;
            #[verifier::loop_isolation(false)]
            while i < members.len()
                invariant
                    0 <= i <= members@.len(),
                    members@.len() > 0,
                    uses_initializers == spec_uses_initializer(members@[0]),
                    spec_first_inconsistent(members@, 0) == spec_first_inconsistent(members@, i as int),
                    self.lexer@ == old(self).lexer@.at(q),
                    self.options == old(self).options,
                    self.errors@ == old(self).errors@,
                decreases members@.len() - i,
            {
                let member_uses = match members[i].init {
                    EnumInit::Defaulted => false,
                    _ => true,
                };
                if uses_initializers != member_uses {
                    self.error_at(
                        ErrorKind::EnumInconsistentInitializers,
                        members[i].start,
                        members[i].end,
                    );
                    return None;
                }
                i = i + 1;
            }
            if !uses_initializers {
                match cur_kind {
                    Some(kind) => {
                        if kind != EnumKind::String && kind != EnumKind::Symbol {
                            self.error_at(ErrorKind::EnumMissingInitializers, start, start);
                            return None;
                        }
                    },
                    None => {},
                }
            }
        }
        let (_, end) = self.lexer.cur_range();
        if !self.check(TokenKind::r_brace) {
            self.need(TokenKind::r_brace);
            return None;
        }
        self.advance();
        let has_explicit_type = explicit_type_start.is_some();
        let start = match explicit_type_start {
            Some(ets) => ets,
            None => start,
        };
        let kind = match cur_kind {
            Some(k) => k,
            None => EnumKind::String,
        };
        Some(EnumBody { kind, members, has_explicit_type, has_unknown_members, start, end })
    }

    /// Parse an enum declaration, with the cursor at `enum` and `start` the
    /// source offset where the declaration starts. `declare` marks a
    /// `declare enum`.
    pub fn parse_enum_declaration_flow(&mut self, start: usize, declare: bool) -> (r: Option<EnumDeclaration>)
        requires
            old(self).lexer@.kind == TokenKind::rw_enum,
        ensures
            ({
                let (res, q) = spec_enum_declaration(
                    old(self).lexer@.tokens,
                    old(self).lexer@.pos,
                    start,
                    declare,
                );
                &&& final(self).lexer@ == old(self).lexer@.at(q)
                &&& final(self).options == old(self).options
                &&& match res {
                    Ok(d) => r matches Some(decl) && decl@ == d && final(self).errors@
                        == old(self).errors@,
                    Err(e) => r is None && final(self).errors@ == old(self).errors@.push(e),
                }
            }),
    {
        proof { use_type_invariant(&self.lexer); }
        self.advance();
        if !self.need(TokenKind::identifier) {
            return None;
        }
        let id = self.lexer.cur_index();
        self.advance();
        let mut opt_kind: Option<EnumKind> = None;
        let mut explicit_type_start: Option<usize> = None;
        let of: [u8; 2] = [111u8, 102u8];
        assert(of@ =~= spec_of_name());
        if self.check_name(of.as_slice()) {
            let (s, _) = self.advance();
            explicit_type_start = Some(s);
            let string: [u8; 6] = [115u8, 116u8, 114u8, 105u8, 110u8, 103u8];
            let number: [u8; 6] = [110u8, 117u8, 109u8, 98u8, 101u8, 114u8];
            let bigint: [u8; 6] = [98u8, 105u8, 103u8, 105u8, 110u8, 116u8];
            let boolean: [u8; 7] = [98u8, 111u8, 111u8, 108u8, 101u8, 97u8, 110u8];
            let symbol: [u8; 6] = [115u8, 121u8, 109u8, 98u8, 111u8, 108u8];
            assert(string@ =~= spec_string_name());
            assert(number@ =~= spec_number_name());
            assert(bigint@ =~= spec_bigint_name());
            assert(boolean@ =~= spec_boolean_name());
            assert(symbol@ =~= spec_symbol_name());
            if self.check_name(string.as_slice()) {
                self.advance();
                opt_kind = Some(EnumKind::String);
            } else if self.check_name(number.as_slice()) {
                self.advance();
                opt_kind = Some(EnumKind::Number);
            } else if self.check_name(bigint.as_slice()) {
                self.advance();
                opt_kind = Some(EnumKind::BigInt);
            } else if self.check_name(boolean.as_slice()) {
                self.advance();
                opt_kind = Some(EnumKind::Boolean);
            } else if self.check_name(symbol.as_slice()) {
                self.advance();
                opt_kind = Some(EnumKind::Symbol);
            }
        }
        if !self.need(TokenKind::l_brace) {
            return None;
        }
        let body = match self.parse_enum_body_flow(opt_kind, explicit_type_start) {
            Some(b) => b,
            None => return None,
        };
        let end = body.end;
        Some(EnumDeclaration { id, body, declare, start, end })
    }
}

// ---------------------------------------------------------------------------
// Type aliases.
// ---------------------------------------------------------------------------

/// Which form of alias declaration is being parsed.
#[derive(Clone, Copy, Debug, PartialEq, Eq, Structural)]
pub enum TypeAliasKind {
    /// `type T = ...;`
    Plain,
    /// `declare type T = ...;`
    Declare,
    /// `opaque type T = ...;`
    Opaque,
    /// `declare opaque type T;`
    DeclareOpaque,
}

/// The bounds of an opaque type at `q`: `super Lower` (a type without a
/// conditional part), then `extends Upper`; or, when neither is given, the
/// older `: Supertype`. Gives the lower bound, the upper bound and the
/// supertype.
pub open spec fn spec_opaque_bounds(toks: Seq<Token>, q: int) -> (Result<(Option<Expr>, Option<Expr>, Option<Expr>), ParseError>, int) {
    let (lres, q1) = if toks[q].kind == TokenKind::rw_super {
        match spec_primary_type(toks, step(toks, q)) {
            (Err(e), r) => (Err(e), r),
            (Ok(t), r) => (Ok(Some(t)), r),
        }
    } else {
        (Ok(None), q)
    };
    match lres {
        Err(e) => (Err(e), q1),
        Ok(lower) => {
            let (ures, q2) = if toks[q1].kind == TokenKind::rw_extends {
                match spec_type(toks, step(toks, q1)) {
                    (Err(e), r) => (Err(e), r),
                    (Ok(t), r) => (Ok(Some(t)), r),
                }
            } else {
                (Ok(None), q1)
            };
            match ures {
                Err(e) => (Err(e), q2),
                Ok(upper) => if lower is None && upper is None && toks[q2].kind == TokenKind::colon {
                    match spec_type(toks, step(toks, q2)) {
                        (Err(e), r) => (Err(e), r),
                        (Ok(t), r) => (Ok((None, None, Some(t))), r),
                    }
                } else {
                    (Ok((lower, upper, None)), q2)
                },
            }
        },
    }
}

/// The node of a type alias of the given kind, spanning `[start, end)`.
pub open spec fn spec_alias_node(
    kind: TypeAliasKind,
    id: Expr,
    type_parameters: Option<Expr>,
    right: Option<Expr>,
    bounds: (Option<Expr>, Option<Expr>, Option<Expr>),
    start: usize,
    end: usize,
) -> Expr {
    let node = match kind {
        TypeAliasKind::Plain => Node::TypeAlias {
            id: Box::new(id),
            type_parameters: spec_boxed(type_parameters),
            right: Box::new(right->Some_0),
        },
        TypeAliasKind::Declare => Node::DeclareTypeAlias {
            id: Box::new(id),
            type_parameters: spec_boxed(type_parameters),
            right: Box::new(right->Some_0),
        },
        TypeAliasKind::Opaque => Node::OpaqueType {
            id: Box::new(id),
            type_parameters: spec_boxed(type_parameters),
            impltype: Box::new(right->Some_0),
            lower_bound: spec_boxed(bounds.0),
            upper_bound: spec_boxed(bounds.1),
            supertype: spec_boxed(bounds.2),
        },
        TypeAliasKind::DeclareOpaque => Node::DeclareOpaqueType {
            id: Box::new(id),
            type_parameters: spec_boxed(type_parameters),
            lower_bound: spec_boxed(bounds.0),
            upper_bound: spec_boxed(bounds.1),
            supertype: spec_boxed(bounds.2),
        },
    };
    Expr { parens: 0, node, start, end }
}

/// A type alias whose `type` keyword (and any `declare` or `opaque` before
/// it, as `kind` says) started at `start` and has been read, from its name
/// at `p`: `Name<Params> [bounds] = Type;`, where only opaque types have
/// bounds and a `declare opaque type` has no `= Type`.
pub open spec fn spec_type_alias(toks: Seq<Token>, p: int, start: usize, kind: TypeAliasKind) -> (Result<Expr, ParseError>, int) {
    let t = toks[p];
    if t.kind != TokenKind::identifier {
        (Err(err_at(ErrorKind::Expected(TokenKind::identifier), t)), p)
    } else {
        let id = Expr { parens: 0, node: Node::Identifier(p as usize), start: t.start, end: t.end };
        let q = step(toks, p);
        let (tpres, q1) = if toks[q].kind == TokenKind::less {
            match spec_type_params(toks, q) {
                (Err(e), r) => (Err(e), r),
                (Ok(x), r) => (Ok(Some(x)), r),
            }
        } else {
            (Ok(None), q)
        };
        match tpres {
            Err(e) => (Err(e), q1),
            Ok(tp) => {
                let (bres, q2) = if kind == TypeAliasKind::Opaque || kind == TypeAliasKind::DeclareOpaque {
                    spec_opaque_bounds(toks, q1)
                } else {
                    (Ok((None, None, None)), q1)
                };
                match bres {
                    Err(e) => (Err(e), q2),
                    Ok(bounds) => {
                        let (rres, q3) = if kind == TypeAliasKind::DeclareOpaque {
                            (Ok(None), q2)
                        } else if toks[q2].kind != TokenKind::equal {
                            (Err(err_at(ErrorKind::Expected(TokenKind::equal), toks[q2])), q2)
                        } else {
                            match spec_type(toks, step(toks, q2)) {
                                (Err(e), r) => (Err(e), r),
                                (Ok(x), r) => (Ok(Some(x)), r),
                            }
                        };
                        match rres {
                            Err(e) => (Err(e), q3),
                            Ok(right) => {
                                let (ok, s) = spec_eat_semi(toks, q3);
                                if ok {
                                    (Ok(spec_alias_node(kind, id, tp, right, bounds, start, spec_prev_end(toks, s))), s)
                                } else {
                                    (Err(err_at(ErrorKind::Expected(TokenKind::semi), toks[q3])), q3)
                                }
                            },
                        }
                    },
                }
            },
        }
    }
}

impl JSParserImpl {
    /// Parse the bounds of an opaque type: `super Lower`, `extends Upper`,
    /// or (when neither is given) `: Supertype`.
    fn parse_opaque_bounds(&mut self) -> (r: Option<(Option<Expr>, Option<Expr>, Option<Expr>)>)
        requires
            old(self).lexer@.is_fresh(),
        ensures
            ({
                let (res, q) = spec_opaque_bounds(old(self).lexer@.tokens, old(self).lexer@.pos);
                &&& final(self).options == old(self).options
                &&& final(self).lexer@ == old(self).lexer@.at(q)
                &&& match res {
                    Ok(b) => r == Some(b) && final(self).errors@ == old(self).errors@,
                    Err(e) => r is None && final(self).errors@ == old(self).errors@.push(e),
                }
            }),
    {
        proof { use_type_invariant(&self.lexer); }
        assert(old(self).lexer@.at(old(self).lexer@.pos) == old(self).lexer@);
        let mut lower: Option<Expr> = None;
        if self.check_and_eat(TokenKind::rw_super) {
            match self.parse_primary_type_annotation_flow() {
                Some(t) => {
                    lower = Some(t);
                },
                None => return None,
            }
        }
        proof { use_type_invariant(&self.lexer); }
        let mut upper: Option<Expr> = None;
        if self.check_and_eat(TokenKind::rw_extends) {
            match self.parse_type_annotation_flow(None) {
                Some(t) => {
                    upper = Some(t);
                },
                None => return None,
            }
        }
        proof { use_type_invariant(&self.lexer); }
        if lower.is_none() && upper.is_none() && self.check_and_eat(TokenKind::colon) {
            match self.parse_type_annotation_flow(None) {
                Some(t) => Some((None, None, Some(t))),
                None => None,
            }
        } else {
            Some((lower, upper, None))
        }
    }

    /// Parse a type alias from its name, the `type` keyword (and any
    /// `declare` or `opaque` before it, as `kind` says) having been read
    /// from `start`: `Name<Params> [bounds] = Type;`. Only opaque types
    /// take bounds, and a `declare opaque type` has no `= Type`.
    pub fn parse_type_alias_flow(&mut self, start: usize, kind: TypeAliasKind) -> (r: Option<Expr>)
        requires
            old(self).lexer@.is_fresh(),
        ensures
            ({
                let (res, q) = spec_type_alias(old(self).lexer@.tokens, old(self).lexer@.pos, start, kind);
                &&& final(self).options == old(self).options
                &&& final(self).lexer@ == old(self).lexer@.at(q)
                &&& match res {
                    Ok(e) => r == Some(e) && final(self).errors@ == old(self).errors@,
                    Err(e) => r is None && final(self).errors@ == old(self).errors@.push(e),
                }
            }),
    {
        proof { use_type_invariant(&self.lexer); }
        assert(old(self).lexer@.at(old(self).lexer@.pos) == old(self).lexer@);
        if !self.need(TokenKind::identifier) {
            return None;
        }
        let idx = self.lexer.cur_index();
        let (id_start, id_end) = self.advance();
        let id = Expr { parens: 0, node: Node::Identifier(idx), start: id_start, end: id_end };
        proof { use_type_invariant(&self.lexer); }
        assert(self.lexer@.at(self.lexer@.pos) == self.lexer@);
        let mut type_params: Option<Expr> = None;
        if self.check(TokenKind::less) {
            match self.parse_type_params_flow() {
                Some(x) => {
                    type_params = Some(x);
                },
                None => return None,
            }
        }
        proof { use_type_invariant(&self.lexer); }
        let opaque = match kind {
            TypeAliasKind::Opaque | TypeAliasKind::DeclareOpaque => true,
            _ => false,
        };
        let bounds = if opaque {
            match self.parse_opaque_bounds() {
                Some(b) => b,
                None => return None,
            }
        } else {
            (None, None, None)
        };
        proof { use_type_invariant(&self.lexer); }
        let declare_opaque = match kind {
            TypeAliasKind::DeclareOpaque => true,
            _ => false,
        };
        let mut right: Option<Expr> = None;
        if !declare_opaque {
            if !self.eat(TokenKind::equal) {
                return None;
            }
            match self.parse_type_annotation_flow(None) {
                Some(t) => {
                    right = Some(t);
                },
                None => return None,
            }
        }
        if !self.eat_semi() {
            return None;
        }
        let end = self.lexer.prev_token_end();
        let (lower_bound, upper_bound, supertype) = bounds;
        let node = match kind {
            TypeAliasKind::Plain => match right {
                Some(t) => Node::TypeAlias { id: Box::new(id), type_parameters: boxed(type_params), right: Box::new(t) },
                None => return None,
            },
            TypeAliasKind::Declare => match right {
                Some(t) => Node::DeclareTypeAlias {
                    id: Box::new(id),
                    type_parameters: boxed(type_params),
                    right: Box::new(t),
                },
                None => return None,
            },
            TypeAliasKind::Opaque => match right {
                Some(t) => Node::OpaqueType {
                    id: Box::new(id),
                    type_parameters: boxed(type_params),
                    impltype: Box::new(t),
                    lower_bound: boxed(lower_bound),
                    upper_bound: boxed(upper_bound),
                    supertype: boxed(supertype),
                },
                None => return None,
            },
            TypeAliasKind::DeclareOpaque => Node::DeclareOpaqueType {
                id: Box::new(id),
                type_parameters: boxed(type_params),
                lower_bound: boxed(lower_bound),
                upper_bound: boxed(upper_bound),
                supertype: boxed(supertype),
            },
        };
        Some(Expr { parens: 0, node, start, end })
    }
}

// ---------------------------------------------------------------------------
// Interface `extends` clauses.
// ---------------------------------------------------------------------------

/// The `extends` entry made of a generic type: its name and type arguments,
/// over the same source range.
pub open spec fn spec_interface_extends(g: Expr) -> Expr {
    match g.node {
        Node::GenericTypeAnnotation { id, type_parameters } => Expr { parens: 0,
            node: Node::InterfaceExtends { id, type_parameters },
            start: g.start,
            end: g.end,
        },
        _ => g,
    }
}

impl JSParserImpl {
    /// Parse one entry of an interface `extends` clause, with the current
    /// token at its name: a generic type, added to `extends` as an
    /// `extends` entry. Returns false when a diagnostic was reported.
    pub fn parse_interface_extends(&mut self, extends: &mut Vec<Expr>) -> (r: bool)
        requires
            old(self).lexer@.is_fresh(),
            old(self).lexer@.kind == TokenKind::identifier,
        ensures
            ({
                let (res, q) = spec_generic_type(old(self).lexer@.tokens, old(self).lexer@.pos);
                &&& final(self).options == old(self).options
                &&& final(self).lexer@ == old(self).lexer@.at(q)
                &&& match res {
                    Ok(g) => r && final(extends)@ == old(extends)@.push(spec_interface_extends(g))
                        && final(self).errors@ == old(self).errors@,
                    Err(e) => !r && final(extends)@ == old(extends)@ && final(self).errors@
                        == old(self).errors@.push(e),
                }
            }),
            r ==> final(self).lexer@.pos > old(self).lexer@.pos,
    {
        let generic = match self.parse_generic_type_flow() {
            Some(g) => g,
            None => return false,
        };
        let Expr { node, start, end, .. } = generic;
        match node {
            Node::GenericTypeAnnotation { id, type_parameters } => {
                extends.push(Expr { parens: 0, node: Node::InterfaceExtends { id, type_parameters }, start, end });
                true
            },
            _ => false,
        }
    }
}

/// The entries of an interface `extends` clause from `q`, added to `acc`:
/// generic types named by identifiers, separated by commas. Gives the
/// entries, the diagnostic that stopped the clause, if any, and the
/// position after.
pub open spec fn spec_extends_list(toks: Seq<Token>, q: int, acc: Seq<Expr>) -> (Seq<Expr>, Option<ParseError>, int)
    decreases toks.len() - q,
{
    if toks[q].kind != TokenKind::identifier {
        (acc, Some(err_at(ErrorKind::Expected(TokenKind::identifier), toks[q])), q)
    } else {
        match spec_generic_type(toks, q) {
            (Err(e), r) => (acc, Some(e), r),
            (Ok(g), r) => {
                let acc2 = acc.push(spec_interface_extends(g));
                if toks[r].kind == TokenKind::comma && 0 <= q < r < toks.len() {
                    spec_extends_list(toks, step(toks, r), acc2)
                } else {
                    (acc2, None, r)
                }
            },
        }
    }
}

/// The tail of an interface at `p`, with the `extends` entries added to
/// `acc`: an optional `extends` clause, then the body, an object type
/// without `proto`, `static` or spreads. Gives the body, the entries, the
/// diagnostics and the position after.
pub open spec fn spec_interface_tail(toks: Seq<Token>, p: int, acc: Seq<Expr>) -> (Option<Expr>, Seq<Expr>, Seq<ParseError>, int) {
    let (ext, err, q) = if toks[p].kind == TokenKind::rw_extends {
        spec_extends_list(toks, step(toks, p), acc)
    } else {
        (acc, None, p)
    };
    if err is Some {
        (None, ext, seq![err->Some_0], q)
    } else if toks[q].kind != TokenKind::l_brace {
        (None, ext, seq![err_at(ErrorKind::Expected(TokenKind::l_brace), toks[q])], q)
    } else {
        let (res, e2, r) = spec_object_type(toks, q, false, false, false);
        (res, ext, e2, r)
    }
}

/// An interface declaration at `p`, where the token is `interface`: the
/// name, optional type parameters and the tail. With `declare_start`, it
/// is a `declare interface` starting there.
pub open spec fn spec_interface_declaration(toks: Seq<Token>, p: int, declare_start: Option<usize>) -> (Option<Expr>, Seq<ParseError>, int) {
    let start = toks[p].start;
    let q = step(toks, p);
    if toks[q].kind != TokenKind::identifier {
        (None, seq![err_at(ErrorKind::Expected(TokenKind::identifier), toks[q])], q)
    } else {
        let id = Expr { parens: 0, node: Node::Identifier(q as usize), start: toks[q].start, end: toks[q].end };
        let q1 = step(toks, q);
        let (tp, q2) = if toks[q1].kind == TokenKind::less {
            match spec_type_params(toks, q1) {
                (Err(e), r) => (Err(e), r),
                (Ok(t), r) => (Ok(Some(t)), r),
            }
        } else {
            (Ok(None), q1)
        };
        match tp {
            Err(e) => (None, seq![e], q2),
            Ok(tp) => {
                let (res, ext, e, r) = spec_interface_tail(toks, q2, Seq::empty());
                match res {
                    None => (None, e, r),
                    Some(body) => {
                        let node = match declare_start {
                            Some(_) => Node::DeclareInterface {
                                id: Box::new(id),
                                type_parameters: spec_boxed(tp),
                                extends: spec_list_of(ext),
                                body: Box::new(body),
                            },
                            None => Node::InterfaceDeclaration {
                                id: Box::new(id),
                                type_parameters: spec_boxed(tp),
                                extends: spec_list_of(ext),
                                body: Box::new(body),
                            },
                        };
                        let s = match declare_start {
                            Some(d) => d,
                            None => start,
                        };
                        (Some(Expr { parens: 0, node, start: s, end: body.end }), e, r)
                    },
                }
            },
        }
    }
}

/// The name `interface`.
pub open spec fn spec_interface_name() -> Seq<u8> {
    seq![105u8, 110u8, 116u8, 101u8, 114u8, 102u8, 97u8, 99u8, 101u8]
}

impl JSParserImpl {
    /// Parse the entries of an interface `extends` clause, adding them to
    /// `extends`: generic types named by identifiers, separated by commas.
    /// Returns whether they were read.
    fn parse_extends_list(&mut self, extends: &mut Vec<Expr>) -> (r: bool)
        requires
            old(self).lexer@.is_fresh(),
        ensures
            ({
                let (ext, err, q) = spec_extends_list(old(self).lexer@.tokens, old(self).lexer@.pos, old(extends)@);
                &&& r == (err is None)
                &&& final(extends)@ == ext
                &&& final(self).errors@ == match err {
                    Some(e) => old(self).errors@.push(e),
                    None => old(self).errors@,
                }
                &&& final(self).lexer@ == old(self).lexer@.at(q)
                &&& final(self).options == old(self).options
            }),
        decreases old(self).lexer@.tokens.len() - old(self).lexer@.pos,
    {
        proof { use_type_invariant(&self.lexer); }
        assert(old(self).lexer@.at(old(self).lexer@.pos) == old(self).lexer@);
        if !self.need(TokenKind::identifier) {
            return false;
        }
        if !self.parse_interface_extends(extends) {
            return false;
        }
        proof { use_type_invariant(&self.lexer); }
        if self.check(TokenKind::comma) {
            self.advance();
            return self.parse_extends_list(extends);
        }
        true
    }

    /// Parse the tail of an interface, adding the entries of its `extends`
    /// clause to `extends`: an optional `extends` clause, then the body, an
    /// object type without `proto`, `static` or spreads, which is returned.
    #[verifier::rlimit(100)]
    #[verifier::spinoff_prover]
    pub fn parse_interface_tail_flow(&mut self, extends: &mut Vec<Expr>) -> (r: Option<Expr>)
        requires
            old(self).lexer@.is_fresh(),
        ensures
            ({
                let (res, ext, errs, q) = spec_interface_tail(old(self).lexer@.tokens, old(self).lexer@.pos, old(extends)@);
                &&& r == res
                &&& final(extends)@ == ext
                &&& final(self).errors@ == old(self).errors@ + errs
                &&& final(self).lexer@ == old(self).lexer@.at(q)
                &&& final(self).options == old(self).options
            }),
    {
        proof { use_type_invariant(&self.lexer); }
        assert(old(self).lexer@.at(old(self).lexer@.pos) == old(self).lexer@);
        if self.check(TokenKind::rw_extends) {
            self.advance();
            proof { use_type_invariant(&self.lexer); }
            if !self.parse_extends_list(extends) {
                assert(self.errors@ =~= old(self).errors@ + seq![self.errors@.last()]);
                return None;
            }
        }
        proof { use_type_invariant(&self.lexer); }
        if !self.need(TokenKind::l_brace) {
            assert(self.errors@ =~= old(self).errors@ + seq![self.errors@.last()]);
            return None;
        }
        let r = self.parse_object_type_annotation_flow(false, false, false);
        r
    }

    /// Parse an interface declaration, with the current token at
    /// `interface` (the reserved word, or the name where it is not
    /// reserved): the name, optional type parameters, an optional `extends`
    /// clause and the body. With `declare_start`, it is a
    /// `declare interface` starting there.
    #[verifier::rlimit(100)]
    #[verifier::spinoff_prover]
    pub fn parse_interface_declaration_flow(&mut self, declare_start: Option<usize>) -> (r: Option<Expr>)
        requires
            old(self).lexer@.is_fresh(),
            old(self).lexer@.kind == TokenKind::rw_interface || old(self).lexer@.is_name(spec_interface_name()),
        ensures
            ({
                let (res, errs, q) = spec_interface_declaration(old(self).lexer@.tokens, old(self).lexer@.pos, declare_start);
                &&& r == res
                &&& final(self).errors@ == old(self).errors@ + errs
                &&& final(self).lexer@ == old(self).lexer@.at(q)
                &&& final(self).options == old(self).options
            }),
    {
        proof { use_type_invariant(&self.lexer); }
        let (start, _) = self.advance();
        proof { use_type_invariant(&self.lexer); }
        if !self.need(TokenKind::identifier) {
            assert(self.errors@ =~= old(self).errors@ + seq![self.errors@.last()]);
            return None;
        }
        let idx = self.lexer.cur_index();
        let (is, ie) = self.advance();
        let id = Expr { parens: 0, node: Node::Identifier(idx), start: is, end: ie };
        proof { use_type_invariant(&self.lexer); }
        let mut type_params: Option<Expr> = None;
        if self.check(TokenKind::less) {
            type_params = match self.parse_type_params_flow() {
                Some(t) => Some(t),
                None => {
                    assert(self.errors@ =~= old(self).errors@ + seq![self.errors@.last()]);
                    return None;
                },
            };
        }
        proof { use_type_invariant(&self.lexer); }
        let mut extends: Vec<Expr> = Vec::new();
        assert(extends@ =~= Seq::<Expr>::empty());
        let body = match self.parse_interface_tail_flow(&mut extends) {
            Some(b) => b,
            None => return None,
        };
        let end = body.end;
        let extends = list_from_vec(extends);
        match declare_start {
            Some(d) => Some(
                Expr { parens: 0,
                    node: Node::DeclareInterface {
                        id: Box::new(id),
                        type_parameters: boxed(type_params),
                        extends,
                        body: Box::new(body),
                    },
                    start: d,
                    end,
                },
            ),
            None => Some(
                Expr { parens: 0,
                    node: Node::InterfaceDeclaration {
                        id: Box::new(id),
                        type_parameters: boxed(type_params),
                        extends,
                        body: Box::new(body),
                    },
                    start,
                    end,
                },
            ),
        }
    }
}

// ---------------------------------------------------------------------------
// `declare class`.
// ---------------------------------------------------------------------------

/// The name `mixins`.
pub open spec fn spec_mixins_name() -> Seq<u8> {
    seq![109u8, 105u8, 120u8, 105u8, 110u8, 115u8]
}

/// The entries of an `implements` clause (of a record when `record`, of a
/// class otherwise) from `q`, added to `acc`:
/// names with optional type arguments, separated by commas. Gives the
/// entries, the diagnostic that stopped the clause, if any, and the
/// position after.
pub open spec fn spec_implements_list(toks: Seq<Token>, q: int, acc: Seq<Expr>, record: bool) -> (Seq<Expr>, Option<ParseError>, int)
    decreases toks.len() - q,
{
    if toks[q].kind != TokenKind::identifier {
        (acc, Some(err_at(ErrorKind::Expected(TokenKind::identifier), toks[q])), q)
    } else {
        match spec_implements_entry(toks, q, record) {
            (Err(e), r) => (acc, Some(e), r),
            (Ok(i), r) => {
                let acc2 = acc.push(i);
                if toks[r].kind == TokenKind::comma && 0 <= q < r < toks.len() {
                    spec_implements_list(toks, step(toks, r), acc2, record)
                } else {
                    (acc2, None, r)
                }
            },
        }
    }
}

/// The heritage of a declared class from `q`: an optional `extends` with
/// one entry, optional `mixins` entries, and optional `implements` entries.
/// Gives the three lists, the diagnostic that stopped them, if any, and the
/// position after.
pub open spec fn spec_class_heritage(toks: Seq<Token>, q: int) -> (Seq<Expr>, Seq<Expr>, Seq<Expr>, Option<ParseError>, int) {
    let (ext, e1, q1) = if toks[q].kind == TokenKind::rw_extends {
        let r0 = step(toks, q);
        if toks[r0].kind != TokenKind::identifier {
            (Seq::<Expr>::empty(), Some(err_at(ErrorKind::Expected(TokenKind::identifier), toks[r0])), r0)
        } else {
            match spec_generic_type(toks, r0) {
                (Err(e), r) => (Seq::<Expr>::empty(), Some(e), r),
                (Ok(g), r) => (seq![spec_interface_extends(g)], None, r),
            }
        }
    } else {
        (Seq::<Expr>::empty(), None, q)
    };
    if e1 is Some {
        (ext, Seq::empty(), Seq::empty(), e1, q1)
    } else {
        let (mix, e2, q2) = if is_name_at(toks, q1, spec_mixins_name()) {
            spec_extends_list(toks, step(toks, q1), Seq::empty())
        } else {
            (Seq::<Expr>::empty(), None, q1)
        };
        if e2 is Some {
            (ext, mix, Seq::empty(), e2, q2)
        } else {
            let (imp, e3, q3) = if toks[q2].kind == TokenKind::rw_implements {
                spec_implements_list(toks, step(toks, q2), Seq::empty(), false)
            } else {
                (Seq::<Expr>::empty(), None, q2)
            };
            (ext, mix, imp, e3, q3)
        }
    }
}

/// A declared class from `q`, after `declare class`, which started at
/// `start`: the name, optional type parameters, the heritage, and the body,
/// an object type where `proto` and `static` are modifiers and spreads are
/// not allowed.
pub open spec fn spec_declare_class(toks: Seq<Token>, q: int, start: usize) -> (Option<Expr>, Seq<ParseError>, int) {
    if toks[q].kind != TokenKind::identifier {
        (None, seq![err_at(ErrorKind::Expected(TokenKind::identifier), toks[q])], q)
    } else {
        let id = Expr { parens: 0, node: Node::Identifier(q as usize), start: toks[q].start, end: toks[q].end };
        let q1 = step(toks, q);
        let (tp, q2) = if toks[q1].kind == TokenKind::less {
            match spec_type_params(toks, q1) {
                (Err(e), r) => (Err(e), r),
                (Ok(t), r) => (Ok(Some(t)), r),
            }
        } else {
            (Ok(None), q1)
        };
        match tp {
            Err(e) => (None, seq![e], q2),
            Ok(tp) => {
                let (ext, mix, imp, err, q3) = spec_class_heritage(toks, q2);
                if err is Some {
                    (None, seq![err->Some_0], q3)
                } else if toks[q3].kind != TokenKind::l_brace {
                    (None, seq![err_at(ErrorKind::Expected(TokenKind::l_brace), toks[q3])], q3)
                } else {
                    match spec_object_type(toks, q3, true, true, false) {
                        (None, e, r) => (None, e, r),
                        (Some(body), e, r) => (Some(Expr { parens: 0,
                            node: Node::DeclareClass {
                                id: Box::new(id),
                                type_parameters: spec_boxed(tp),
                                extends: spec_list_of(ext),
                                implements: spec_list_of(imp),
                                mixins: spec_list_of(mix),
                                body: Box::new(body),
                            },
                            start,
                            end: body.end,
                        }), e, r),
                    }
                }
            },
        }
    }
}

impl JSParserImpl {
    /// Parse the entries of a class `implements` clause, adding them to
    /// `implements`: names with optional type arguments, separated by
    /// commas. Returns whether they were read.
    fn parse_implements_list(&mut self, implements: &mut Vec<Expr>, record: bool) -> (r: bool)
        requires
            old(self).lexer@.is_fresh(),
        ensures
            ({
                let (imp, err, q) = spec_implements_list(old(self).lexer@.tokens, old(self).lexer@.pos, old(implements)@, record);
                &&& r == (err is None)
                &&& final(implements)@ == imp
                &&& final(self).errors@ == match err {
                    Some(e) => old(self).errors@.push(e),
                    None => old(self).errors@,
                }
                &&& final(self).lexer@ == old(self).lexer@.at(q)
                &&& final(self).options == old(self).options
            }),
        decreases old(self).lexer@.tokens.len() - old(self).lexer@.pos,
    {
        proof { use_type_invariant(&self.lexer); }
        assert(old(self).lexer@.at(old(self).lexer@.pos) == old(self).lexer@);
        if !self.need(TokenKind::identifier) {
            return false;
        }
        let entry = if record {
            self.parse_record_declaration_implements_flow()
        } else {
            self.parse_class_implements_flow()
        };
        let entry = match entry {
            Some(e) => e,
            None => return false,
        };
        implements.push(entry);
        proof { use_type_invariant(&self.lexer); }
        if self.check(TokenKind::comma) {
            self.advance();
            return self.parse_implements_list(implements, record);
        }
        true
    }

    /// Parse the heritage of a declared class into `extends`, `mixins` and
    /// `implements`: an optional `extends` with one entry, optional
    /// `mixins` entries, and optional `implements` entries. Returns whether
    /// it was read.
    #[verifier::rlimit(100)]
    #[verifier::spinoff_prover]
    fn parse_class_heritage(
        &mut self,
        extends: &mut Vec<Expr>,
        mixins: &mut Vec<Expr>,
        implements: &mut Vec<Expr>,
    ) -> (r: bool)
        requires
            old(self).lexer@.is_fresh(),
            old(extends)@.len() == 0,
            old(mixins)@.len() == 0,
            old(implements)@.len() == 0,
        ensures
            ({
                let (ext, mix, imp, err, q) = spec_class_heritage(old(self).lexer@.tokens, old(self).lexer@.pos);
                &&& r == (err is None)
                &&& final(extends)@ == ext
                &&& final(mixins)@ == mix
                &&& final(implements)@ == imp
                &&& final(self).errors@ == match err {
                    Some(e) => old(self).errors@.push(e),
                    None => old(self).errors@,
                }
                &&& final(self).lexer@ == old(self).lexer@.at(q)
                &&& final(self).options == old(self).options
            }),
    {
        proof { use_type_invariant(&self.lexer); }
        assert(old(self).lexer@.at(old(self).lexer@.pos) == old(self).lexer@);
        assert(old(extends)@ =~= Seq::<Expr>::empty());
        assert(old(mixins)@ =~= Seq::<Expr>::empty());
        assert(old(implements)@ =~= Seq::<Expr>::empty());
        if self.check(TokenKind::rw_extends) {
            self.advance();
            proof { use_type_invariant(&self.lexer); }
            if !self.need(TokenKind::identifier) {
                return false;
            }
            if !self.parse_interface_extends(extends) {
                return false;
            }
            assert(extends@ =~= seq![extends@[0]]);
        }
        proof { use_type_invariant(&self.lexer); }
        let mixins_name: [u8; 6] = [109u8, 105u8, 120u8, 105u8, 110u8, 115u8];
        assert(mixins_name@ =~= spec_mixins_name());
        if self.check_name(mixins_name.as_slice()) {
            self.advance();
            proof { use_type_invariant(&self.lexer); }
            if !self.parse_extends_list(mixins) {
                return false;
            }
        }
        proof { use_type_invariant(&self.lexer); }
        if self.check(TokenKind::rw_implements) {
            self.advance();
            proof { use_type_invariant(&self.lexer); }
            if !self.parse_implements_list(implements, false) {
                return false;
            }
        }
        true
    }

    /// Parse a declared class after `declare class`, which started at
    /// `start`: the name, optional type parameters, the heritage, and the
    /// body, an object type where `proto` and `static` are modifiers and
    /// spreads are not allowed.
    #[verifier::rlimit(100)]
    #[verifier::spinoff_prover]
    pub fn parse_declare_class_flow_inner(&mut self, start: usize) -> (r: Option<Expr>)
        requires
            old(self).lexer@.is_fresh(),
        ensures
            ({
                let (res, errs, q) = spec_declare_class(old(self).lexer@.tokens, old(self).lexer@.pos, start);
                &&& r == res
                &&& final(self).errors@ == old(self).errors@ + errs
                &&& final(self).lexer@ == old(self).lexer@.at(q)
                &&& final(self).options == old(self).options
            }),
    {
        proof { use_type_invariant(&self.lexer); }
        assert(old(self).lexer@.at(old(self).lexer@.pos) == old(self).lexer@);
        if !self.need(TokenKind::identifier) {
            assert(self.errors@ =~= old(self).errors@ + seq![self.errors@.last()]);
            return None;
        }
        let idx = self.lexer.cur_index();
        let (is, ie) = self.advance();
        let id = Expr { parens: 0, node: Node::Identifier(idx), start: is, end: ie };
        proof { use_type_invariant(&self.lexer); }
        let mut type_params: Option<Expr> = None;
        if self.check(TokenKind::less) {
            type_params = match self.parse_type_params_flow() {
                Some(t) => Some(t),
                None => {
                    assert(self.errors@ =~= old(self).errors@ + seq![self.errors@.last()]);
                    return None;
                },
            };
        }
        proof { use_type_invariant(&self.lexer); }
        let mut extends: Vec<Expr> = Vec::new();
        let mut mixins: Vec<Expr> = Vec::new();
        let mut implements: Vec<Expr> = Vec::new();
        if !self.parse_class_heritage(&mut extends, &mut mixins, &mut implements) {
            assert(self.errors@ =~= old(self).errors@ + seq![self.errors@.last()]);
            return None;
        }
        proof { use_type_invariant(&self.lexer); }
        if !self.need(TokenKind::l_brace) {
            assert(self.errors@ =~= old(self).errors@ + seq![self.errors@.last()]);
            return None;
        }
        let body = match self.parse_object_type_annotation_flow(true, true, false) {
            Some(b) => b,
            None => return None,
        };
        let end = body.end;
        Some(
            Expr { parens: 0,
                node: Node::DeclareClass {
                    id: Box::new(id),
                    type_parameters: boxed(type_params),
                    extends: list_from_vec(extends),
                    implements: list_from_vec(implements),
                    mixins: list_from_vec(mixins),
                    body: Box::new(body),
                },
                start,
                end,
            },
        )
    }

    /// Parse a declared class, with the current token at `class` after
    /// `declare`, which started at `start`. The class is read as strict
    /// code.
    pub fn parse_declare_class_flow(&mut self, start: usize) -> (r: Option<Expr>)
        requires
            old(self).lexer@.is_fresh(),
            old(self).lexer@.kind == TokenKind::rw_class,
        ensures
            ({
                let (res, errs, q) = spec_declare_class(
                    old(self).lexer@.tokens,
                    old(self).lexer@.next_pos(),
                    start,
                );
                &&& r == res
                &&& final(self).errors@ == old(self).errors@ + errs
                &&& final(self).lexer@ == old(self).lexer@.at(q)
                &&& final(self).options == old(self).options
            }),
    {
        self.advance();
        let old_strict = self.options.strict_mode;
        self.options.strict_mode = true;
        proof { use_type_invariant(&self.lexer); }
        let r = self.parse_declare_class_flow_inner(start);
        self.options.strict_mode = old_strict;
        r
    }
}

// ---------------------------------------------------------------------------
// `declare function` and `declare hook`.
// ---------------------------------------------------------------------------

/// The signature of a declared function (a hook when `hook`) at `q`, after
/// its name: optional type parameters, the parameter list, `:` and the
/// return type, as a function (or hook) type.
#[verifier::opaque]
pub open spec fn spec_declare_signature(toks: Seq<Token>, q: int, hook: bool) -> (Option<Expr>, Seq<ParseError>, int) {
    let func_start = toks[q].start;
    let (tp, q1) = if toks[q].kind == TokenKind::less {
        match spec_type_params(toks, q) {
            (Err(e), r) => (Err(e), r),
            (Ok(t), r) => (Ok(Some(t)), r),
        }
    } else {
        (Ok(None), q)
    };
    match tp {
        Err(e) => (None, seq![e], q1),
        Ok(tp) => if toks[q1].kind != TokenKind::l_paren {
            (None, seq![err_at(ErrorKind::Expected(TokenKind::l_paren), toks[q1])], q1)
        } else {
            let (res, ps, this, e, r) = spec_function_type_params(toks, q1, hook, Seq::empty());
            match res {
                None => (None, e, r),
                Some(rest) => if toks[r].kind != TokenKind::colon {
                    (None, e.push(err_at(ErrorKind::Expected(TokenKind::colon), toks[r])), r)
                } else {
                    match spec_return_type(toks, step(toks, r), None) {
                        (Err(e2), r2) => (None, e.push(e2), r2),
                        (Ok(ret), r2) => (Some(if hook {
                            spec_hook_node(ps, ret, rest, tp, func_start, spec_prev_end(toks, r2))
                        } else {
                            spec_function_node(ps, this, ret, rest, tp, func_start, spec_prev_end(toks, r2))
                        }), e, r2),
                    }
                },
            }
        },
    }
}

/// A declared function (a hook when `hook`) at `p`, where the token is
/// `function` (or `hook`), after `declare`, which started at `start`: the
/// name, the signature, for a function an optional `%checks` predicate, and
/// the end of the statement.
pub open spec fn spec_declare_function(toks: Seq<Token>, p: int, start: usize, hook: bool) -> (Option<Expr>, Seq<ParseError>, int) {
    let q = step(toks, p);
    if toks[q].kind != TokenKind::identifier {
        (None, seq![err_at(ErrorKind::Expected(TokenKind::identifier), toks[q])], q)
    } else {
        match spec_declare_signature(toks, step(toks, q), hook) {
            (None, e, r) => (None, e, r),
            (Some(ft), e, r) => {
                let (pr, r1) = if !hook && is_name_at(toks, r, spec_checks_name()) {
                    match spec_predicate_flow(toks, r) {
                        (Err(e2), r1) => (Err(e2), r1),
                        (Ok(x), r1) => (Ok(Some(x)), r1),
                    }
                } else {
                    (Ok(None), r)
                };
                match pr {
                    Err(e2) => (None, e.push(e2), r1),
                    Ok(pred) => {
                        let (ok, r2) = spec_eat_semi(toks, r1);
                        if !ok {
                            (None, e.push(err_at(ErrorKind::Expected(TokenKind::semi), toks[r1])), r1)
                        } else {
                            let annot = Expr { parens: 0,
                                node: Node::TypeAnnotation { type_annotation: Box::new(ft) },
                                start: ft.start,
                                end: ft.end,
                            };
                            let id = Expr { parens: 0, node: Node::Identifier(q as usize), start: toks[q].start, end: ft.end };
                            let node = if hook {
                                Node::DeclareHook { id: Box::new(id), type_annotation: Box::new(annot) }
                            } else {
                                Node::DeclareFunction {
                                    id: Box::new(id),
                                    type_annotation: Box::new(annot),
                                    predicate: spec_boxed(pred),
                                }
                            };
                            (Some(Expr { parens: 0, node, start, end: spec_prev_end(toks, r2) }), e, r2)
                        }
                    },
                }
            },
        }
    }
}

impl JSParserImpl {
    /// Parse the signature of a declared function (a hook when `hook`),
    /// after its name: optional type parameters, the parameter list, `:`
    /// and the return type, as a function (or hook) type.
    #[verifier::rlimit(100)]
    #[verifier::spinoff_prover]
    fn parse_declare_signature(&mut self, hook: bool) -> (r: Option<Expr>)
        requires
            old(self).lexer@.is_fresh(),
        ensures
            ({
                let (res, errs, q) = spec_declare_signature(old(self).lexer@.tokens, old(self).lexer@.pos, hook);
                &&& r == res
                &&& final(self).errors@ == old(self).errors@ + errs
                &&& final(self).lexer@ == old(self).lexer@.at(q)
                &&& final(self).options == old(self).options
            }),
    {
        reveal(spec_declare_signature);
        proof { use_type_invariant(&self.lexer); }
        assert(old(self).lexer@.at(old(self).lexer@.pos) == old(self).lexer@);
        let (func_start, _) = self.lexer.cur_range();
        let mut type_params: Option<Expr> = None;
        if self.check(TokenKind::less) {
            type_params = match self.parse_type_params_flow() {
                Some(t) => Some(t),
                None => {
                    assert(self.errors@ =~= old(self).errors@ + seq![self.errors@.last()]);
                    return None;
                },
            };
        }
        proof { use_type_invariant(&self.lexer); }
        if !self.need(TokenKind::l_paren) {
            assert(self.errors@ =~= old(self).errors@ + seq![self.errors@.last()]);
            return None;
        }
        let mut params: Vec<Expr> = Vec::new();
        let mut this_constraint: Option<Expr> = None;
        let rest = match self.parse_function_type_annotation_params_flow(&mut params, &mut this_constraint, hook) {
            Some(x) => x,
            None => return None,
        };
        let ghost e1 = self.errors@.skip(old(self).errors@.len() as int);
        assert(self.errors@ =~= old(self).errors@ + e1);
        proof { use_type_invariant(&self.lexer); }
        if !self.eat(TokenKind::colon) {
            assert(self.errors@ =~= old(self).errors@ + e1.push(self.errors@.last()));
            return None;
        }
        let return_type = match self.parse_return_type_annotation_flow(None) {
            Some(t) => t,
            None => {
                assert(self.errors@ =~= old(self).errors@ + e1.push(self.errors@.last()));
                return None;
            },
        };
        let func_end = self.lexer.prev_token_end();
        let params = list_from_vec(params);
        if hook {
            Some(
                Expr { parens: 0,
                    node: Node::HookTypeAnnotation {
                        params,
                        return_type: Box::new(return_type),
                        rest: boxed(rest),
                        type_parameters: boxed(type_params),
                    },
                    start: func_start,
                    end: func_end,
                },
            )
        } else {
            Some(
                Expr { parens: 0,
                    node: Node::FunctionTypeAnnotation {
                        params,
                        this_constraint: boxed(this_constraint),
                        return_type: Box::new(return_type),
                        rest: boxed(rest),
                        type_parameters: boxed(type_params),
                    },
                    start: func_start,
                    end: func_end,
                },
            )
        }
    }

    /// Parse a declared function (a hook when `hook`), with the current
    /// token at `function` (or `hook`) after `declare`, which started at
    /// `start`: the name, the signature, for a function an optional
    /// `%checks` predicate, and the end of the statement. The name's node
    /// spans the name and the signature, whose type is its annotation.
    #[verifier::rlimit(100)]
    #[verifier::spinoff_prover]
    pub fn parse_declare_function_or_hook_flow(&mut self, start: usize, hook: bool) -> (r: Option<Expr>)
        requires
            old(self).lexer@.is_fresh(),
        ensures
            ({
                let (res, errs, q) = spec_declare_function(old(self).lexer@.tokens, old(self).lexer@.pos, start, hook);
                &&& r == res
                &&& final(self).errors@ == old(self).errors@ + errs
                &&& final(self).lexer@ == old(self).lexer@.at(q)
                &&& final(self).options == old(self).options
            }),
    {
        proof { use_type_invariant(&self.lexer); }
        self.advance();
        proof { use_type_invariant(&self.lexer); }
        if !self.need(TokenKind::identifier) {
            assert(self.errors@ =~= old(self).errors@ + seq![self.errors@.last()]);
            return None;
        }
        let idx = self.lexer.cur_index();
        let (id_start, _) = self.advance();
        proof { use_type_invariant(&self.lexer); }
        let fn_type = match self.parse_declare_signature(hook) {
            Some(t) => t,
            None => return None,
        };
        let ghost e1 = self.errors@.skip(old(self).errors@.len() as int);
        assert(self.errors@ =~= old(self).errors@ + e1);
        proof { use_type_invariant(&self.lexer); }
        let checks: [u8; 7] = [37u8, 99u8, 104u8, 101u8, 99u8, 107u8, 115u8];
        assert(checks@ =~= spec_checks_name());
        let mut predicate: Option<Expr> = None;
        if !hook && self.check_name(checks.as_slice()) {
            predicate = match self.parse_predicate_flow() {
                Some(x) => Some(x),
                None => {
                    assert(self.errors@ =~= old(self).errors@ + e1.push(self.errors@.last()));
                    return None;
                },
            };
        }
        proof { use_type_invariant(&self.lexer); }
        if !self.eat_semi() {
            assert(self.errors@ =~= old(self).errors@ + e1.push(self.errors@.last()));
            return None;
        }
        let end = self.lexer.prev_token_end();
        let (fs, fe) = (fn_type.start, fn_type.end);
        let annot = Expr { parens: 0, node: Node::TypeAnnotation { type_annotation: Box::new(fn_type) }, start: fs, end: fe };
        let id = Expr { parens: 0, node: Node::Identifier(idx), start: id_start, end: fe };
        let node = if hook {
            Node::DeclareHook { id: Box::new(id), type_annotation: Box::new(annot) }
        } else {
            Node::DeclareFunction { id: Box::new(id), type_annotation: Box::new(annot), predicate: boxed(predicate) }
        };
        Some(Expr { parens: 0, node, start, end })
    }

    /// Parse a declared function, with the current token at `function`
    /// after `declare`, which started at `start`.
    pub fn parse_declare_function_flow(&mut self, start: usize) -> (r: Option<Expr>)
        requires
            old(self).lexer@.is_fresh(),
            old(self).lexer@.kind == TokenKind::rw_function,
        ensures
            ({
                let (res, errs, q) = spec_declare_function(old(self).lexer@.tokens, old(self).lexer@.pos, start, false);
                &&& r == res
                &&& final(self).errors@ == old(self).errors@ + errs
                &&& final(self).lexer@ == old(self).lexer@.at(q)
                &&& final(self).options == old(self).options
            }),
    {
        self.parse_declare_function_or_hook_flow(start, false)
    }

    /// Parse a declared hook, with the current token at `hook` after
    /// `declare`, which started at `start`.
    pub fn parse_declare_hook_flow(&mut self, start: usize) -> (r: Option<Expr>)
        requires
            old(self).lexer@.is_fresh(),
            old(self).lexer@.is_name(spec_hook_name()),
        ensures
            ({
                let (res, errs, q) = spec_declare_function(old(self).lexer@.tokens, old(self).lexer@.pos, start, true);
                &&& r == res
                &&& final(self).errors@ == old(self).errors@ + errs
                &&& final(self).lexer@ == old(self).lexer@.at(q)
                &&& final(self).options == old(self).options
            }),
    {
        self.parse_declare_function_or_hook_flow(start, true)
    }
}

// ---------------------------------------------------------------------------
// Flow declarations.
// ---------------------------------------------------------------------------

/// A Flow declaration: an enum, a `declare export` of an enum (with the
/// source range of the whole export), or a declaration node.
pub enum FlowDeclaration {
    Enum(EnumDeclaration),
    ExportedEnum(EnumDeclaration, usize, usize),
    Declaration(Expr),
}

/// The abstract value of a Flow declaration.
pub ghost enum FlowDeclarationView {
    Enum(EnumDeclarationView),
    ExportedEnum(EnumDeclarationView, usize, usize),
    Declaration(Expr),
}

impl View for FlowDeclaration {
    type V = FlowDeclarationView;

    open spec fn view(&self) -> FlowDeclarationView {
        match self {
            FlowDeclaration::Enum(d) => FlowDeclarationView::Enum(d@),
            FlowDeclaration::ExportedEnum(d, s, e) => FlowDeclarationView::ExportedEnum(d@, *s, *e),
            FlowDeclaration::Declaration(e) => FlowDeclarationView::Declaration(*e),
        }
    }
}

/// The name `declare`.
pub open spec fn spec_declare_name() -> Seq<u8> {
    seq![100u8, 101u8, 99u8, 108u8, 97u8, 114u8, 101u8]
}

/// The name `opaque`.
pub open spec fn spec_opaque_name() -> Seq<u8> {
    seq![111u8, 112u8, 97u8, 113u8, 117u8, 101u8]
}

/// The name `type`.
pub open spec fn spec_type_keyword_name() -> Seq<u8> {
    seq![116u8, 121u8, 112u8, 101u8]
}

/// The component or hook declaration the current token starts, where
/// component syntax is enabled: `async component`, `component`,
/// `async hook` or `hook`, in that order of precedence.
pub open spec fn spec_component_syntax_start(s: LexerState) -> Option<UnsupportedSyntax> {
    let unescaped_async = s.is_unescaped_name(spec_async_name());
    if unescaped_async && spec_starts_async_declaration(s, spec_component_name()) {
        Some(UnsupportedSyntax::ComponentDeclaration)
    } else if spec_starts_named_declaration(s, spec_component_name()) {
        Some(UnsupportedSyntax::ComponentDeclaration)
    } else if unescaped_async && spec_starts_async_declaration(s, spec_hook_name()) {
        Some(UnsupportedSyntax::HookDeclaration)
    } else if spec_starts_named_declaration(s, spec_hook_name()) {
        Some(UnsupportedSyntax::HookDeclaration)
    } else {
        None
    }
}

/// The declaration form that `s` starts that is not parsed: a component or
/// hook declaration (with component syntax).
pub open spec fn spec_unparsed_declaration(s: LexerState, o: ParserOptions) -> Option<UnsupportedSyntax> {
    if o.parse_flow_component_syntax && spec_component_syntax_start(s) is Some {
        spec_component_syntax_start(s)
    } else {
        None
    }
}

/// Whether `s` starts a record declaration, with records enabled.
pub open spec fn spec_starts_record(s: LexerState, o: ParserOptions) -> bool {
    o.parse_flow_records && spec_starts_named_declaration(s, spec_record_name())
}

/// Whether `s` starts a Flow declaration: a component, hook or record
/// declaration where enabled, an `enum`, or `declare`, `opaque`, `type` or
/// `interface`.
pub open spec fn spec_starts_flow_declaration(s: LexerState, o: ParserOptions) -> bool {
    ||| spec_unparsed_declaration(s, o) is Some
    ||| spec_starts_record(s, o)
    ||| s.kind == TokenKind::rw_enum
    ||| s.is_name(spec_declare_name())
    ||| s.is_name(spec_opaque_name())
    ||| s.is_name(spec_type_keyword_name())
    ||| s.is_name(spec_interface_name())
    ||| s.kind == TokenKind::rw_interface
}

/// A Flow declaration where `s` is: a record (where enabled); an enum; a
/// type alias after `type`, `declare type` or `opaque type`, of the kind
/// read before `type`; or an interface, with `declare` before it a
/// `declare interface`. Component and hook declarations are reported as
/// unsupported where they start.
pub open spec fn spec_flow_declaration(s: LexerState, o: ParserOptions) -> (Option<FlowDeclarationView>, Seq<ParseError>, int) {
    let toks = s.tokens;
    let p = s.pos;
    let start = toks[p].start;
    if spec_unparsed_declaration(s, o) is Some {
        (None, seq![err_at(ErrorKind::Unsupported(spec_unparsed_declaration(s, o)->Some_0), toks[p])], p)
    } else if spec_starts_record(s, o) {
        let (res, e, r) = spec_record_declaration(toks, p, start);
        (match res {
            Some(d) => Some(FlowDeclarationView::Declaration(d)),
            None => None,
        }, e, r)
    } else if s.kind == TokenKind::rw_enum {
        match spec_enum_declaration(toks, p, start, false) {
            (Err(e), r) => (None, seq![e], r),
            (Ok(d), r) => (Some(FlowDeclarationView::Enum(d)), Seq::empty(), r),
        }
    } else {
        spec_alias_or_interface(toks, p, start)
    }
}

/// A type alias or an interface at `p` (the declaration started at
/// `start`): `declare` or `opaque`, if there, gives the kind; `type` then
/// starts a type alias of that kind and `interface` an interface, with
/// `declare` a `declare interface`. `declare` must be followed by `type` or
/// `interface`, and `opaque` by `type`.
#[verifier::opaque]
pub open spec fn spec_alias_or_interface(toks: Seq<Token>, p: int, start: usize) -> (Option<FlowDeclarationView>, Seq<ParseError>, int) {
    let kind = if is_name_at(toks, p, spec_declare_name()) {
        TypeAliasKind::Declare
    } else if is_name_at(toks, p, spec_opaque_name()) {
        TypeAliasKind::Opaque
    } else {
        TypeAliasKind::Plain
    };
    let p1 = if kind == TypeAliasKind::Plain {
        p
    } else {
        step(toks, p)
    };
    let is_type = is_name_at(toks, p1, spec_type_keyword_name());
    let is_interface = is_name_at(toks, p1, spec_interface_name()) || toks[p1].kind == TokenKind::rw_interface;
    if kind == TypeAliasKind::Declare && !(is_type || is_interface) {
        (None, seq![err_at(ErrorKind::InvalidDeclareToken, toks[p1])], p1)
    } else if kind == TypeAliasKind::Opaque && !is_type {
        (None, seq![err_at(ErrorKind::InvalidOpaqueToken, toks[p1])], p1)
    } else if is_type {
        match spec_type_alias(toks, step(toks, p1), start, kind) {
            (Err(e), r) => (None, seq![e], r),
            (Ok(a), r) => (Some(FlowDeclarationView::Declaration(a)), Seq::empty(), r),
        }
    } else {
        let (res, e, r) = spec_interface_declaration(
            toks,
            p1,
            if kind == TypeAliasKind::Declare {
                Some(start)
            } else {
                None
            },
        );
        (match res {
            Some(d) => Some(FlowDeclarationView::Declaration(d)),
            None => None,
        }, e, r)
    }
}

impl JSParserImpl {
    /// The declaration form that the current token starts that is not
    /// parsed: a component or hook declaration (with component syntax). The
    /// cursor does not move.
    fn unparsed_flow_declaration(&mut self) -> (r: Option<UnsupportedSyntax>)
        ensures
            r == spec_unparsed_declaration(old(self).lexer@, old(self).options),
            final(self).lexer@ == old(self).lexer@,
            final(self).options == old(self).options,
            final(self).errors@ == old(self).errors@,
    {
        let async_name: [u8; 5] = [97u8, 115u8, 121u8, 110u8, 99u8];
        assert(async_name@ =~= spec_async_name());
        if self.options.parse_flow_component_syntax {
            let unescaped_async = self.check_unescaped_name(async_name.as_slice());
            if unescaped_async && self.check_async_component_flow() {
                return Some(UnsupportedSyntax::ComponentDeclaration);
            } else if self.check_component_declaration_flow() {
                return Some(UnsupportedSyntax::ComponentDeclaration);
            } else if unescaped_async && self.check_async_hook_flow() {
                return Some(UnsupportedSyntax::HookDeclaration);
            } else if self.check_hook_declaration_flow() {
                return Some(UnsupportedSyntax::HookDeclaration);
            }
        }
        None
    }

    /// Parse a type alias or an interface (the declaration started at
    /// `start`): `declare` or `opaque`, if there, gives the kind; `type`
    /// then starts a type alias of that kind and `interface` an interface,
    /// with `declare` a `declare interface`.
    #[verifier::rlimit(100)]
    #[verifier::spinoff_prover]
    fn parse_alias_or_interface(&mut self, start: usize) -> (r: Option<FlowDeclaration>)
        requires
            old(self).lexer@.is_fresh(),
            old(self).lexer@.is_name(spec_declare_name()) || old(self).lexer@.is_name(spec_opaque_name())
                || old(self).lexer@.is_name(spec_type_keyword_name()) || old(self).lexer@.is_name(
                spec_interface_name(),
            ) || old(self).lexer@.kind == TokenKind::rw_interface,
        ensures
            ({
                let (res, errs, q) = spec_alias_or_interface(old(self).lexer@.tokens, old(self).lexer@.pos, start);
                &&& match r {
                    Some(d) => res == Some(d@),
                    None => res is None,
                }
                &&& final(self).errors@ == old(self).errors@ + errs
                &&& final(self).lexer@ == old(self).lexer@.at(q)
                &&& final(self).options == old(self).options
            }),
    {
        reveal(spec_alias_or_interface);
        proof { use_type_invariant(&self.lexer); }
        assert(old(self).lexer@.at(old(self).lexer@.pos) == old(self).lexer@);
        let declare_name: [u8; 7] = [100u8, 101u8, 99u8, 108u8, 97u8, 114u8, 101u8];
        let opaque_name: [u8; 6] = [111u8, 112u8, 97u8, 113u8, 117u8, 101u8];
        let type_kw: [u8; 4] = [116u8, 121u8, 112u8, 101u8];
        let interface_name: [u8; 9] = [105u8, 110u8, 116u8, 101u8, 114u8, 102u8, 97u8, 99u8, 101u8];
        proof {
            assert(declare_name@ =~= spec_declare_name());
            assert(opaque_name@ =~= spec_opaque_name());
            assert(type_kw@ =~= spec_type_keyword_name());
            assert(interface_name@ =~= spec_interface_name());
        }
        let kind = if self.check_name(declare_name.as_slice()) {
            self.advance();
            TypeAliasKind::Declare
        } else if self.check_name(opaque_name.as_slice()) {
            self.advance();
            TypeAliasKind::Opaque
        } else {
            TypeAliasKind::Plain
        };
        proof { use_type_invariant(&self.lexer); }
        let is_type = self.check_name(type_kw.as_slice());
        let is_interface = self.check_name(interface_name.as_slice()) || self.check(TokenKind::rw_interface);
        if kind == TypeAliasKind::Declare && !(is_type || is_interface) {
            self.error_cur(ErrorKind::InvalidDeclareToken);
            assert(self.errors@ =~= old(self).errors@ + seq![self.errors@.last()]);
            return None;
        }
        if kind == TypeAliasKind::Opaque && !is_type {
            self.error_cur(ErrorKind::InvalidOpaqueToken);
            assert(self.errors@ =~= old(self).errors@ + seq![self.errors@.last()]);
            return None;
        }
        if is_type {
            self.advance();
            proof { use_type_invariant(&self.lexer); }
            return match self.parse_type_alias_flow(start, kind) {
                Some(a) => {
                    assert(self.errors@ =~= old(self).errors@ + Seq::<ParseError>::empty());
                    Some(FlowDeclaration::Declaration(a))
                },
                None => {
                    assert(self.errors@ =~= old(self).errors@ + seq![self.errors@.last()]);
                    None
                },
            };
        }
        let declare_start = if kind == TypeAliasKind::Declare {
            Some(start)
        } else {
            None
        };
        match self.parse_interface_declaration_flow(declare_start) {
            Some(d) => Some(FlowDeclaration::Declaration(d)),
            None => None,
        }
    }

    /// Parse a Flow declaration, with the current token at its start: a
    /// record (where enabled); an `enum`; a type alias after `type`,
    /// `declare type` or `opaque type`; or an interface, with `declare`
    /// before it a `declare interface`. `declare` must be followed by `type`
    /// or `interface`, and `opaque` by `type`. Component and hook
    /// declarations are reported as unsupported where they start.
    #[verifier::rlimit(100)]
    #[verifier::spinoff_prover]
    pub fn parse_flow_declaration(&mut self) -> (r: Option<FlowDeclaration>)
        requires
            old(self).lexer@.is_fresh(),
            spec_starts_flow_declaration(old(self).lexer@, old(self).options),
        ensures
            ({
                let (res, errs, q) = spec_flow_declaration(old(self).lexer@, old(self).options);
                &&& match r {
                    Some(d) => res == Some(d@),
                    None => res is None,
                }
                &&& final(self).errors@ == old(self).errors@ + errs
                &&& final(self).lexer@ == old(self).lexer@.at(q)
                &&& final(self).options == old(self).options
            }),
    {
        proof { use_type_invariant(&self.lexer); }
        assert(old(self).lexer@.at(old(self).lexer@.pos) == old(self).lexer@);
        let (start, _) = self.lexer.cur_range();
        let unparsed = self.unparsed_flow_declaration();
        if let Some(u) = unparsed {
            self.error_cur(ErrorKind::Unsupported(u));
            assert(self.errors@ =~= old(self).errors@ + seq![self.errors@.last()]);
            return None;
        }
        if self.options.parse_flow_records && self.check_record_declaration_flow() {
            return match self.parse_record_declaration_flow(start) {
                Some(d) => Some(FlowDeclaration::Declaration(d)),
                None => None,
            };
        }
        if self.check(TokenKind::rw_enum) {
            return match self.parse_enum_declaration_flow(start, false) {
                Some(d) => {
                    assert(self.errors@ =~= old(self).errors@ + Seq::<ParseError>::empty());
                    Some(FlowDeclaration::Enum(d))
                },
                None => {
                    assert(self.errors@ =~= old(self).errors@ + seq![self.errors@.last()]);
                    None
                },
            };
        }
        self.parse_alias_or_interface(start)
    }
}

/// The `declare export` node of the declaration `decl` (the default export
/// when `is_default`) from `start` to the end of `decl`, or to `end` when
/// there is no declaration.
pub open spec fn spec_declare_export_node(start: usize, decl: Option<Expr>, is_default: bool, end: usize) -> Expr {
    Expr { parens: 0,
        node: Node::DeclareExportDeclaration {
            declaration: spec_boxed(decl),
            specifiers: NodeList::Nil,
            source: None,
            is_default,
        },
        start,
        end: match decl {
            Some(d) => d.end,
            None => end,
        },
    }
}

impl JSParserImpl {
    /// Wrap the declaration `decl` (the default export when `is_default`)
    /// in a `declare export` node that starts at `start` and ends where the
    /// declaration does, or where the previous token does when there is no
    /// declaration.
    pub fn wrap_declare_export(&mut self, start: usize, decl: Option<Expr>, is_default: bool) -> (r: Option<Expr>)
        ensures
            r == Some(spec_declare_export_node(start, decl, is_default, spec_prev_end(old(self).lexer@.tokens, old(self).lexer@.pos))),
            final(self).lexer@ == old(self).lexer@,
            final(self).options == old(self).options,
            final(self).errors@ == old(self).errors@,
    {
        let end = match &decl {
            Some(d) => d.end,
            None => self.lexer.prev_token_end(),
        };
        Some(
            Expr { parens: 0,
                node: Node::DeclareExportDeclaration {
                    declaration: boxed(decl),
                    specifiers: NodeList::Nil,
                    source: None,
                    is_default,
                },
                start,
                end,
            },
        )
    }
}

// ---------------------------------------------------------------------------
// `declare` statements.
// ---------------------------------------------------------------------------

/// The name `module`.
pub open spec fn spec_module_name() -> Seq<u8> {
    seq![109u8, 111u8, 100u8, 117u8, 108u8, 101u8]
}

/// The name `namespace`.
pub open spec fn spec_namespace_name() -> Seq<u8> {
    seq![110u8, 97u8, 109u8, 101u8, 115u8, 112u8, 97u8, 99u8, 101u8]
}

/// Whether what follows `declare` at `s` is a type alias, an interface, a
/// class or a function.
pub open spec fn spec_declares_type_or_value(s: LexerState) -> bool {
    ||| s.is_name(spec_type_keyword_name())
    ||| s.is_name(spec_opaque_name())
    ||| s.kind == TokenKind::rw_interface
    ||| s.is_name(spec_interface_name())
    ||| s.kind == TokenKind::rw_class
    ||| s.kind == TokenKind::rw_function
}

/// A type alias, an interface, a class or a function declared at `s`,
/// after `declare`, which started at `start`. `opaque` must be followed by
/// `type`.
#[verifier::opaque]
pub open spec fn spec_declare_type_or_value(s: LexerState, start: usize) -> (Option<FlowDeclarationView>, Seq<ParseError>, int) {
    let toks = s.tokens;
    let p = s.pos;
    if s.is_name(spec_type_keyword_name()) {
        match spec_type_alias(toks, step(toks, p), start, TypeAliasKind::Declare) {
            (Err(e), r) => (None, seq![e], r),
            (Ok(a), r) => (Some(FlowDeclarationView::Declaration(a)), Seq::empty(), r),
        }
    } else if s.is_name(spec_opaque_name()) {
        let p1 = step(toks, p);
        if !is_name_at(toks, p1, spec_type_keyword_name()) {
            (None, seq![ParseError { kind: ErrorKind::TypeRequiredAfterOpaque, start: toks[p1].start, end: toks[p1].start }], p1)
        } else {
            match spec_type_alias(toks, step(toks, p1), start, TypeAliasKind::DeclareOpaque) {
                (Err(e), r) => (None, seq![e], r),
                (Ok(a), r) => (Some(FlowDeclarationView::Declaration(a)), Seq::empty(), r),
            }
        }
    } else {
        let (res, e, r) = if s.kind == TokenKind::rw_class {
            spec_declare_class(toks, step(toks, p), start)
        } else if s.kind == TokenKind::rw_function {
            spec_declare_function(toks, p, start, false)
        } else {
            spec_interface_declaration(toks, p, Some(start))
        };
        (match res {
            Some(d) => Some(FlowDeclarationView::Declaration(d)),
            None => None,
        }, e, r)
    }
}

/// Any other declaration at `s`, after `declare`, which started at
/// `start`: with component syntax a hook (`async` before it is reported
/// and skipped); an enum; a module; a variable; an export; otherwise
/// `namespace` or a component, which are reported as unsupported, or a
/// token that cannot follow `declare`.
#[verifier::opaque]
pub open spec fn spec_declare_other(s: LexerState, o: ParserOptions, start: usize) -> (Option<FlowDeclarationView>, Seq<ParseError>, int) {
    let toks = s.tokens;
    let p = s.pos;
    let cs = o.parse_flow_component_syntax;
    let unescaped_async = s.is_unescaped_name(spec_async_name());
    let unsupported = |u: UnsupportedSyntax| (None, seq![err_at(ErrorKind::Unsupported(u), toks[p])], p);
    if cs && spec_starts_named_declaration(s, spec_hook_name()) {
        let (res, e, r) = spec_declare_function(toks, p, start, true);
        (match res {
            Some(d) => Some(FlowDeclarationView::Declaration(d)),
            None => None,
        }, e, r)
    } else if cs && unescaped_async && spec_starts_async_declaration(s, spec_hook_name()) {
        let (res, e, r) = spec_declare_function(toks, step(toks, p), start, true);
        (match res {
            Some(d) => Some(FlowDeclarationView::Declaration(d)),
            None => None,
        }, seq![ParseError { kind: ErrorKind::AsyncDeclaredHook, start: toks[p].start, end: toks[p].start }] + e, r)
    } else if cs && unescaped_async && spec_starts_async_declaration(s, spec_component_name()) {
        let p1 = step(toks, p);
        (
            None,
            seq![
                ParseError { kind: ErrorKind::AsyncDeclaredComponent, start: toks[p].start, end: toks[p].start },
                err_at(ErrorKind::Unsupported(UnsupportedSyntax::ComponentDeclaration), toks[p1]),
            ],
            p1,
        )
    } else if cs && spec_starts_named_declaration(s, spec_component_name()) {
        unsupported(UnsupportedSyntax::ComponentDeclaration)
    } else if s.kind == TokenKind::rw_enum {
        match spec_enum_declaration(toks, p, start, true) {
            (Err(e), r) => (None, seq![e], r),
            (Ok(d), r) => (Some(FlowDeclarationView::Enum(d)), Seq::empty(), r),
        }
    } else if s.is_name(spec_module_name()) {
        let (res, e, r) = spec_declare_module(toks, p, start);
        (match res {
            Some(d) => Some(FlowDeclarationView::Declaration(d)),
            None => None,
        }, e, r)
    } else if s.is_name(spec_namespace_name()) {
        unsupported(UnsupportedSyntax::DeclareNamespace)
    } else if s.kind == TokenKind::rw_var || s.kind == TokenKind::rw_const || s.is_name(spec_let_name()) {
        let (res, e, r) = spec_declare_variable(toks, p, start);
        (match res {
            Some(d) => Some(FlowDeclarationView::Declaration(d)),
            None => None,
        }, e, r)
    } else if s.kind != TokenKind::rw_export {
        (None, seq![err_at(spec_declare_target_error(), toks[p])], p)
    } else {
        spec_declare_export(s, o, start)
    }
}

/// The diagnostic for a token after `declare` that starts nothing that can
/// be declared: `export`, `interface`, `function`, `class` or `var` was
/// expected.
pub open spec fn spec_declare_target_error() -> ErrorKind {
    ErrorKind::ExpectedOneOf5(
        TokenKind::rw_export,
        TokenKind::rw_interface,
        TokenKind::rw_function,
        TokenKind::rw_class,
        TokenKind::rw_var,
    )
}

/// What `declare`, which started at `start`, declares at `s`.
pub open spec fn spec_declare_flow(s: LexerState, o: ParserOptions, start: usize) -> (Option<FlowDeclarationView>, Seq<ParseError>, int) {
    if spec_declares_type_or_value(s) {
        spec_declare_type_or_value(s, start)
    } else {
        spec_declare_other(s, o, start)
    }
}

impl JSParserImpl {
    /// Parse a type alias, an interface, a class or a function declared
    /// after `declare`, which started at `start`.
    #[verifier::rlimit(100)]
    #[verifier::spinoff_prover]
    fn parse_declare_type_or_value(&mut self, start: usize) -> (r: Option<FlowDeclaration>)
        requires
            old(self).lexer@.is_fresh(),
            spec_declares_type_or_value(old(self).lexer@),
        ensures
            ({
                let (res, errs, q) = spec_declare_type_or_value(old(self).lexer@, start);
                &&& match r {
                    Some(d) => res == Some(d@),
                    None => res is None,
                }
                &&& final(self).errors@ == old(self).errors@ + errs
                &&& final(self).lexer@ == old(self).lexer@.at(q)
                &&& final(self).options == old(self).options
            }),
    {
        reveal(spec_declare_type_or_value);
        proof { use_type_invariant(&self.lexer); }
        let type_kw: [u8; 4] = [116u8, 121u8, 112u8, 101u8];
        let opaque_name: [u8; 6] = [111u8, 112u8, 97u8, 113u8, 117u8, 101u8];
        proof {
            assert(type_kw@ =~= spec_type_keyword_name());
            assert(opaque_name@ =~= spec_opaque_name());
        }
        if self.check_name(type_kw.as_slice()) || self.check_name(opaque_name.as_slice()) {
            let kind = if self.check_name(type_kw.as_slice()) {
                TypeAliasKind::Declare
            } else {
                TypeAliasKind::DeclareOpaque
            };
            self.advance();
            proof { use_type_invariant(&self.lexer); }
            if kind == TypeAliasKind::DeclareOpaque {
                if !self.check_name(type_kw.as_slice()) {
                    let (s, _) = self.lexer.cur_range();
                    self.error_at(ErrorKind::TypeRequiredAfterOpaque, s, s);
                    assert(self.errors@ =~= old(self).errors@ + seq![self.errors@.last()]);
                    return None;
                }
                self.advance();
                proof { use_type_invariant(&self.lexer); }
            }
            return match self.parse_type_alias_flow(start, kind) {
                Some(a) => {
                    assert(self.errors@ =~= old(self).errors@ + Seq::<ParseError>::empty());
                    Some(FlowDeclaration::Declaration(a))
                },
                None => {
                    assert(self.errors@ =~= old(self).errors@ + seq![self.errors@.last()]);
                    None
                },
            };
        }
        let r = if self.check(TokenKind::rw_class) {
            self.parse_declare_class_flow(start)
        } else if self.check(TokenKind::rw_function) {
            self.parse_declare_function_flow(start)
        } else {
            self.parse_interface_declaration_flow(Some(start))
        };
        match r {
            Some(d) => Some(FlowDeclaration::Declaration(d)),
            None => None,
        }
    }

    /// Parse any other declaration after `declare`, which started at
    /// `start`: with component syntax a hook (`async` before it is reported
    /// and skipped); an enum; a module; a variable; an export; otherwise
    /// `namespace` or a component, which are reported as unsupported, or a
    /// token that cannot follow `declare`.
    #[verifier::rlimit(100)]
    #[verifier::spinoff_prover]
    fn parse_declare_other(&mut self, start: usize) -> (r: Option<FlowDeclaration>)
        requires
            old(self).lexer@.is_fresh(),
        ensures
            ({
                let (res, errs, q) = spec_declare_other(old(self).lexer@, old(self).options, start);
                &&& match r {
                    Some(d) => res == Some(d@),
                    None => res is None,
                }
                &&& final(self).errors@ == old(self).errors@ + errs
                &&& final(self).lexer@ == old(self).lexer@.at(q)
                &&& final(self).options == old(self).options
            }),
    {
        reveal(spec_declare_other);
        proof { use_type_invariant(&self.lexer); }
        assert(old(self).lexer@.at(old(self).lexer@.pos) == old(self).lexer@);
        let async_name: [u8; 5] = [97u8, 115u8, 121u8, 110u8, 99u8];
        let module_name: [u8; 6] = [109u8, 111u8, 100u8, 117u8, 108u8, 101u8];
        let namespace_name: [u8; 9] = [110u8, 97u8, 109u8, 101u8, 115u8, 112u8, 97u8, 99u8, 101u8];
        let let_name: [u8; 3] = [108u8, 101u8, 116u8];
        proof {
            assert(async_name@ =~= spec_async_name());
            assert(module_name@ =~= spec_module_name());
            assert(namespace_name@ =~= spec_namespace_name());
            assert(let_name@ =~= spec_let_name());
        }
        let cs = self.options.parse_flow_component_syntax;
        if cs && self.check_hook_declaration_flow() {
            return match self.parse_declare_hook_flow(start) {
                Some(d) => Some(FlowDeclaration::Declaration(d)),
                None => None,
            };
        }
        let unescaped_async = self.check_unescaped_name(async_name.as_slice());
        if cs && unescaped_async && self.check_async_hook_flow() {
            let (s, _) = self.lexer.cur_range();
            self.error_at(ErrorKind::AsyncDeclaredHook, s, s);
            self.advance();
            proof { use_type_invariant(&self.lexer); }
            let ghost e0 = self.errors@;
            let r = self.parse_declare_function_or_hook_flow(start, true);
            assert(self.errors@ =~= old(self).errors@ + (seq![e0.last()] + self.errors@.skip(e0.len() as int)));
            return match r {
                Some(d) => Some(FlowDeclaration::Declaration(d)),
                None => None,
            };
        }
        let mut unsupported: Option<UnsupportedSyntax> = None;
        if cs && unescaped_async && self.check_async_component_flow() {
            let (s, _) = self.lexer.cur_range();
            self.error_at(ErrorKind::AsyncDeclaredComponent, s, s);
            self.advance();
            self.error_cur(ErrorKind::Unsupported(UnsupportedSyntax::ComponentDeclaration));
            assert(self.errors@ =~= old(self).errors@ + self.errors@.skip(old(self).errors@.len() as int));
            return None;
        } else if cs && self.check_component_declaration_flow() {
            unsupported = Some(UnsupportedSyntax::ComponentDeclaration);
        } else if self.check(TokenKind::rw_enum) {
            return match self.parse_enum_declaration_flow(start, true) {
                Some(d) => {
                    assert(self.errors@ =~= old(self).errors@ + Seq::<ParseError>::empty());
                    Some(FlowDeclaration::Enum(d))
                },
                None => {
                    assert(self.errors@ =~= old(self).errors@ + seq![self.errors@.last()]);
                    None
                },
            };
        } else if self.check_name(module_name.as_slice()) {
            return match self.parse_declare_module_flow(start) {
                Some(d) => Some(FlowDeclaration::Declaration(d)),
                None => None,
            };
        } else if self.check_name(namespace_name.as_slice()) {
            unsupported = Some(UnsupportedSyntax::DeclareNamespace);
        } else if self.check2(TokenKind::rw_var, TokenKind::rw_const) || self.check_name(let_name.as_slice()) {
            return match self.parse_declare_variable(start) {
                Some(d) => Some(FlowDeclaration::Declaration(d)),
                None => None,
            };
        } else if !self.check(TokenKind::rw_export) {
            self.error_cur(
                ErrorKind::ExpectedOneOf5(
                    TokenKind::rw_export,
                    TokenKind::rw_interface,
                    TokenKind::rw_function,
                    TokenKind::rw_class,
                    TokenKind::rw_var,
                ),
            );
            assert(self.errors@ =~= old(self).errors@ + seq![self.errors@.last()]);
            return None;
        } else {
            return self.parse_declare_export_flow(start);
        }
        match unsupported {
            Some(u) => self.error_cur(ErrorKind::Unsupported(u)),
            None => {},
        }
        assert(self.errors@ =~= old(self).errors@ + seq![self.errors@.last()]);
        None
    }

    /// Parse what `declare`, which started at `start`, declares, with
    /// `declare` read: a type alias (`type`, or `opaque type`), an
    /// interface, a class, a function, with component syntax a hook, an
    /// enum, a module, a variable or an export. `namespace` and components
    /// are reported as unsupported, and any other token as one that cannot
    /// follow `declare`.
    pub fn parse_declare_flow(&mut self, start: usize) -> (r: Option<FlowDeclaration>)
        requires
            old(self).lexer@.is_fresh(),
        ensures
            ({
                let (res, errs, q) = spec_declare_flow(old(self).lexer@, old(self).options, start);
                &&& match r {
                    Some(d) => res == Some(d@),
                    None => res is None,
                }
                &&& final(self).errors@ == old(self).errors@ + errs
                &&& final(self).lexer@ == old(self).lexer@.at(q)
                &&& final(self).options == old(self).options
            }),
    {
        let type_kw: [u8; 4] = [116u8, 121u8, 112u8, 101u8];
        let opaque_name: [u8; 6] = [111u8, 112u8, 97u8, 113u8, 117u8, 101u8];
        let interface_name: [u8; 9] = [105u8, 110u8, 116u8, 101u8, 114u8, 102u8, 97u8, 99u8, 101u8];
        proof {
            assert(type_kw@ =~= spec_type_keyword_name());
            assert(opaque_name@ =~= spec_opaque_name());
            assert(interface_name@ =~= spec_interface_name());
        }
        if self.check_name(type_kw.as_slice()) || self.check_name(opaque_name.as_slice()) || self.check(
            TokenKind::rw_interface,
        ) || self.check_name(interface_name.as_slice()) || self.check(TokenKind::rw_class) || self.check(
            TokenKind::rw_function,
        ) {
            self.parse_declare_type_or_value(start)
        } else {
            self.parse_declare_other(start)
        }
    }
}

// ---------------------------------------------------------------------------
// `declare export` and declared variables.
// ---------------------------------------------------------------------------

/// The name `from`.
pub open spec fn spec_from_name() -> Seq<u8> {
    seq![102u8, 114u8, 111u8, 109u8]
}

/// A `from` clause at `p`, whose token is `from`: the module named by the
/// string literal that follows.
pub open spec fn spec_from_clause(toks: Seq<Token>, p: int) -> (Result<Expr, ParseError>, int) {
    let q = step(toks, p);
    if toks[q].kind != TokenKind::string_literal {
        (Err(err_at(ErrorKind::Expected(TokenKind::string_literal), toks[q])), q)
    } else {
        (Ok(Expr { parens: 0, node: Node::StringLiteral(q as usize), start: toks[q].start, end: toks[q].end }), step(toks, q))
    }
}

/// A declared variable at `p`, whose token is `var`, `const` or `let`, the
/// declaration starting at `start`: the name, its type annotation (whose
/// absence is reported) and the end of the statement.
pub open spec fn spec_declare_variable(toks: Seq<Token>, p: int, start: usize) -> (Option<Expr>, Seq<ParseError>, int) {
    let q = step(toks, p);
    if toks[q].kind != TokenKind::identifier {
        (None, seq![err_at(ErrorKind::Expected(TokenKind::identifier), toks[q])], q)
    } else {
        let q1 = step(toks, q);
        let (ta, r) = if toks[q1].kind == TokenKind::colon {
            match spec_type_annotation_flow(toks, step(toks, q1), Some(toks[q1].start)) {
                (Err(e), r) => (Err(e), r),
                (Ok(t), r) => (Ok(Some(t)), r),
            }
        } else {
            (Ok(None), q1)
        };
        match ta {
            Err(e) => (None, seq![e], r),
            Ok(ta) => {
                let id = Expr { parens: 0,
                    node: Node::Identifier(q as usize),
                    start: toks[q].start,
                    end: match ta {
                        Some(t) => t.end,
                        None => toks[q].end,
                    },
                };
                let e0 = if ta is None {
                    seq![ParseError { kind: ErrorKind::MissingDeclaredVarType, start: id.start, end: id.end }]
                } else {
                    Seq::empty()
                };
                let (ok, r2) = spec_eat_semi(toks, r);
                if !ok {
                    (None, e0.push(err_at(ErrorKind::Expected(TokenKind::semi), toks[r])), r)
                } else {
                    (Some(Expr { parens: 0,
                        node: Node::DeclareVariable {
                            id: Box::new(id),
                            annotation: spec_boxed(ta),
                            kind: spec_binding_keyword(toks, p)->Some_0,
                        },
                        start,
                        end: spec_prev_end(toks, r2),
                    }), e0, r2)
                }
            },
        }
    }
}

/// The declaration parsed in `res` wrapped in a `declare export` (the
/// default export when `is_default`) that starts at `start`.
pub open spec fn spec_wrap_export(res: (Option<Expr>, Seq<ParseError>, int), start: usize, is_default: bool) -> (
    Option<FlowDeclarationView>,
    Seq<ParseError>,
    int,
) {
    (match res.0 {
        Some(d) => Some(FlowDeclarationView::Declaration(spec_declare_export_node(start, Some(d), is_default, 0))),
        None => None,
    }, res.1, res.2)
}

/// A point diagnostic at the start of the token at `p`.
pub open spec fn spec_point(kind: ErrorKind, toks: Seq<Token>, p: int) -> ParseError {
    ParseError { kind, start: toks[p].start, end: toks[p].start }
}

/// What `declare export default`, which started at `start`, exports at
/// `s`: a function, with component syntax a hook (`async` before it is
/// reported and skipped), a class, or else a type; components are reported
/// as unsupported.
#[verifier::opaque]
pub open spec fn spec_declare_export_default(s: LexerState, o: ParserOptions, start: usize) -> (
    Option<FlowDeclarationView>,
    Seq<ParseError>,
    int,
) {
    let toks = s.tokens;
    let q = s.pos;
    let ds = toks[q].start;
    let cs = o.parse_flow_component_syntax;
    let unescaped_async = s.is_unescaped_name(spec_async_name());
    if s.kind == TokenKind::rw_function {
        spec_wrap_export(spec_declare_function(toks, q, ds, false), start, true)
    } else if cs && spec_starts_named_declaration(s, spec_hook_name()) {
        spec_wrap_export(spec_declare_function(toks, q, ds, true), start, true)
    } else if cs && unescaped_async && spec_starts_async_declaration(s, spec_hook_name()) {
        let (res, e, r) = spec_wrap_export(spec_declare_function(toks, step(toks, q), ds, true), start, true);
        (res, seq![spec_point(ErrorKind::AsyncDeclaredHook, toks, q)] + e, r)
    } else if cs && unescaped_async && spec_starts_async_declaration(s, spec_component_name()) {
        (
            None,
            seq![
                spec_point(ErrorKind::AsyncDeclaredComponent, toks, q),
                err_at(ErrorKind::Unsupported(UnsupportedSyntax::ComponentDeclaration), toks[step(toks, q)]),
            ],
            step(toks, q),
        )
    } else if cs && spec_starts_named_declaration(s, spec_component_name()) {
        (None, seq![err_at(ErrorKind::Unsupported(UnsupportedSyntax::ComponentDeclaration), toks[q])], q)
    } else if s.kind == TokenKind::rw_class {
        spec_wrap_export(spec_declare_class(toks, step(toks, q), ds), start, true)
    } else {
        match spec_type(toks, q) {
            (Err(e), r) => (None, seq![e], r),
            (Ok(t), r) => {
                let (ok, r2) = spec_eat_semi(toks, r);
                if !ok {
                    (None, seq![err_at(ErrorKind::Expected(TokenKind::semi), toks[r])], r)
                } else {
                    (Some(FlowDeclarationView::Declaration(Expr { parens: 0,
                        node: Node::DeclareExportDeclaration {
                            declaration: Some(Box::new(t)),
                            specifiers: NodeList::Nil,
                            source: None,
                            is_default: true,
                        },
                        start,
                        end: spec_prev_end(toks, r2),
                    })), Seq::empty(), r2)
                }
            },
        }
    }
}

/// What `declare export`, which started at `start`, exports at `s` when
/// it is not a default export: a function, with component syntax a hook
/// (`async` before it is reported and skipped), a class, an enum, a
/// variable, an opaque type, a type alias, an interface, or everything
/// from a module (`* from`). Components and lists of export specifiers are
/// reported as unsupported.
#[verifier::opaque]
pub open spec fn spec_declare_export_named(s: LexerState, o: ParserOptions, start: usize) -> (
    Option<FlowDeclarationView>,
    Seq<ParseError>,
    int,
) {
    let toks = s.tokens;
    let q = s.pos;
    let ds = toks[q].start;
    let cs = o.parse_flow_component_syntax;
    let unescaped_async = s.is_unescaped_name(spec_async_name());
    if s.kind == TokenKind::rw_function {
        spec_wrap_export(spec_declare_function(toks, q, ds, false), start, false)
    } else if cs && spec_starts_named_declaration(s, spec_hook_name()) {
        spec_wrap_export(spec_declare_function(toks, q, ds, true), start, false)
    } else if cs && unescaped_async && spec_starts_async_declaration(s, spec_hook_name()) {
        let (res, e, r) = spec_wrap_export(spec_declare_function(toks, step(toks, q), ds, true), start, false);
        (res, seq![spec_point(ErrorKind::AsyncDeclaredHook, toks, q)] + e, r)
    } else if s.kind == TokenKind::rw_class {
        spec_wrap_export(spec_declare_class(toks, step(toks, q), ds), start, false)
    } else if cs && unescaped_async && spec_starts_async_declaration(s, spec_component_name()) {
        (
            None,
            seq![
                spec_point(ErrorKind::AsyncDeclaredComponent, toks, q),
                err_at(ErrorKind::Unsupported(UnsupportedSyntax::ComponentDeclaration), toks[step(toks, q)]),
            ],
            step(toks, q),
        )
    } else if cs && spec_starts_named_declaration(s, spec_component_name()) {
        (None, seq![err_at(ErrorKind::Unsupported(UnsupportedSyntax::ComponentDeclaration), toks[q])], q)
    } else if s.kind == TokenKind::rw_enum {
        match spec_enum_declaration(toks, q, start, true) {
            (Err(e), r) => (None, seq![e], r),
            (Ok(d), r) => (Some(FlowDeclarationView::ExportedEnum(d, start, d.end)), Seq::empty(), r),
        }
    } else if s.kind == TokenKind::rw_var || s.kind == TokenKind::rw_const || s.is_name(spec_let_name()) {
        spec_wrap_export(spec_declare_variable(toks, q, ds), start, false)
    } else {
        spec_declare_export_type_or_all(s, start)
    }
}

/// The rest of what `declare export`, which started at `start`, exports
/// at `s`: an opaque type, a type alias, an interface, or everything from
/// a module (`* from`). Lists of export specifiers are reported as
/// unsupported.
#[verifier::opaque]
pub open spec fn spec_declare_export_type_or_all(s: LexerState, start: usize) -> (
    Option<FlowDeclarationView>,
    Seq<ParseError>,
    int,
) {
    let toks = s.tokens;
    let q = s.pos;
    let ds = toks[q].start;
    if s.is_name(spec_opaque_name()) {
        let q1 = step(toks, q);
        if !is_name_at(toks, q1, spec_type_keyword_name()) {
            (None, seq![spec_point(ErrorKind::TypeRequiredAfterOpaque, toks, q1)], q1)
        } else {
            spec_wrap_export(spec_with_errors(spec_type_alias(toks, step(toks, q1), ds, TypeAliasKind::DeclareOpaque)), start, false)
        }
    } else if s.is_name(spec_type_keyword_name()) {
        spec_wrap_export(spec_with_errors(spec_type_alias(toks, step(toks, q), ds, TypeAliasKind::Plain)), start, false)
    } else if s.kind == TokenKind::rw_interface || s.is_name(spec_interface_name()) {
        spec_wrap_export(spec_interface_declaration(toks, q, None), start, false)
    } else if s.kind == TokenKind::star {
        let q1 = step(toks, q);
        if !is_name_at(toks, q1, spec_from_name()) {
            (None, seq![spec_point(ErrorKind::ExpectedFromClause, toks, q1)], q1)
        } else {
            match spec_from_clause(toks, q1) {
                (Err(e), r) => (None, seq![e], r),
                (Ok(src), r) => {
                    let (ok, r2) = spec_eat_semi(toks, r);
                    if !ok {
                        (None, seq![err_at(ErrorKind::Expected(TokenKind::semi), toks[r])], r)
                    } else {
                        (Some(FlowDeclarationView::Declaration(Expr { parens: 0,
                            node: Node::DeclareExportAllDeclaration { source: Box::new(src) },
                            start,
                            end: spec_prev_end(toks, r2),
                        })), Seq::empty(), r2)
                    }
                },
            }
        }
    } else if s.kind == TokenKind::l_brace {
        spec_declare_export_specifiers(toks, q, start)
    } else {
        (None, seq![err_at(ErrorKind::Expected(TokenKind::l_brace), toks[q])], q)
    }
}

/// A `declare export` at `s`, whose token is `export`, after `declare`,
/// which started at `start`: a default export after `default`, or another
/// export.
pub open spec fn spec_declare_export(s: LexerState, o: ParserOptions, start: usize) -> (
    Option<FlowDeclarationView>,
    Seq<ParseError>,
    int,
) {
    let q = step(s.tokens, s.pos);
    if s.tokens[q].kind == TokenKind::rw_default {
        spec_declare_export_default(s.at(step(s.tokens, q)), o, start)
    } else {
        spec_declare_export_named(s.at(q), o, start)
    }
}

impl JSParserImpl {
    /// Parse a `from` clause, with the current token at `from`: the module
    /// named by the string literal that follows.
    pub fn parse_from_clause(&mut self) -> (r: Option<Expr>)
        requires
            old(self).lexer@.is_fresh(),
            old(self).lexer@.is_name(spec_from_name()),
        ensures
            ({
                let (res, q) = spec_from_clause(old(self).lexer@.tokens, old(self).lexer@.pos);
                &&& final(self).options == old(self).options
                &&& final(self).lexer@ == old(self).lexer@.at(q)
                &&& match res {
                    Ok(e) => r == Some(e) && final(self).errors@ == old(self).errors@,
                    Err(e) => r is None && final(self).errors@ == old(self).errors@.push(e),
                }
            }),
    {
        proof { use_type_invariant(&self.lexer); }
        self.advance();
        proof { use_type_invariant(&self.lexer); }
        if !self.need(TokenKind::string_literal) {
            return None;
        }
        let idx = self.lexer.cur_index();
        let (start, end) = self.advance();
        Some(Expr { parens: 0, node: Node::StringLiteral(idx), start, end })
    }

    /// Parse a declared variable, with the current token at `var`, `const`
    /// or `let`, the declaration starting at `start`: the name, its type
    /// annotation (whose absence is reported) and the end of the statement.
    #[verifier::rlimit(100)]
    #[verifier::spinoff_prover]
    pub fn parse_declare_variable(&mut self, start: usize) -> (r: Option<Expr>)
        requires
            old(self).lexer@.is_fresh(),
            old(self).lexer@.kind == TokenKind::rw_var || old(self).lexer@.kind == TokenKind::rw_const
                || old(self).lexer@.is_name(spec_let_name()),
        ensures
            ({
                let (res, errs, q) = spec_declare_variable(old(self).lexer@.tokens, old(self).lexer@.pos, start);
                &&& r == res
                &&& final(self).errors@ == old(self).errors@ + errs
                &&& final(self).lexer@ == old(self).lexer@.at(q)
                &&& final(self).options == old(self).options
            }),
    {
        proof { use_type_invariant(&self.lexer); }
        let kind = if self.check(TokenKind::rw_var) {
            BindingKind::Var
        } else if self.check(TokenKind::rw_const) {
            BindingKind::Const
        } else {
            BindingKind::Let
        };
        self.advance();
        proof { use_type_invariant(&self.lexer); }
        if !self.need(TokenKind::identifier) {
            assert(self.errors@ =~= old(self).errors@ + seq![self.errors@.last()]);
            return None;
        }
        let idx = self.lexer.cur_index();
        let (id_start, id_end) = self.advance();
        proof { use_type_invariant(&self.lexer); }
        let mut annotation: Option<Expr> = None;
        if self.check(TokenKind::colon) {
            let (colon_start, _) = self.advance();
            proof { use_type_invariant(&self.lexer); }
            annotation = match self.parse_type_annotation_flow(Some(colon_start)) {
                Some(t) => Some(t),
                None => {
                    assert(self.errors@ =~= old(self).errors@ + seq![self.errors@.last()]);
                    return None;
                },
            };
        }
        let end = match &annotation {
            Some(t) => t.end,
            None => id_end,
        };
        if annotation.is_none() {
            self.error_at(ErrorKind::MissingDeclaredVarType, id_start, end);
        }
        let ghost e0 = self.errors@.skip(old(self).errors@.len() as int);
        assert(self.errors@ =~= old(self).errors@ + e0);
        proof { use_type_invariant(&self.lexer); }
        if !self.eat_semi() {
            assert(self.errors@ =~= old(self).errors@ + e0.push(self.errors@.last()));
            return None;
        }
        let decl_end = self.lexer.prev_token_end();
        Some(
            Expr { parens: 0,
                node: Node::DeclareVariable {
                    id: Box::new(Expr { parens: 0, node: Node::Identifier(idx), start: id_start, end }),
                    annotation: boxed(annotation),
                    kind,
                },
                start,
                end: decl_end,
            },
        )
    }

    /// The declaration `r`, if any, wrapped in a `declare export` (the
    /// default export when `is_default`) that starts at `start`.
    fn exported(&mut self, start: usize, r: Option<Expr>, is_default: bool) -> (out: Option<FlowDeclaration>)
        ensures
            match out {
                Some(d) => r is Some && d@ == FlowDeclarationView::Declaration(
                    spec_declare_export_node(start, r, is_default, 0),
                ),
                None => r is None,
            },
            final(self).lexer@ == old(self).lexer@,
            final(self).options == old(self).options,
            final(self).errors@ == old(self).errors@,
    {
        match r {
            Some(d) => match self.wrap_declare_export(start, Some(d), is_default) {
                Some(e) => Some(FlowDeclaration::Declaration(e)),
                None => None,
            },
            None => None,
        }
    }

    /// Parse what `declare export default`, which started at `start`,
    /// exports: a function, with component syntax a hook (`async` before it
    /// is reported and skipped), a class, or else a type. Components are
    /// reported as unsupported.
    #[verifier::rlimit(100)]
    #[verifier::spinoff_prover]
    fn parse_declare_export_default(&mut self, start: usize) -> (r: Option<FlowDeclaration>)
        requires
            old(self).lexer@.is_fresh(),
        ensures
            ({
                let (res, errs, q) = spec_declare_export_default(old(self).lexer@, old(self).options, start);
                &&& match r {
                    Some(d) => res == Some(d@),
                    None => res is None,
                }
                &&& final(self).errors@ == old(self).errors@ + errs
                &&& final(self).lexer@ == old(self).lexer@.at(q)
                &&& final(self).options == old(self).options
            }),
    {
        reveal(spec_declare_export_default);
        proof { use_type_invariant(&self.lexer); }
        assert(old(self).lexer@.at(old(self).lexer@.pos) == old(self).lexer@);
        let (ds, _) = self.lexer.cur_range();
        let async_name: [u8; 5] = [97u8, 115u8, 121u8, 110u8, 99u8];
        assert(async_name@ =~= spec_async_name());
        let cs = self.options.parse_flow_component_syntax;
        if self.check(TokenKind::rw_function) {
            let f = self.parse_declare_function_or_hook_flow(ds, false);
            return self.exported(start, f, true);
        }
        if cs && self.check_hook_declaration_flow() {
            let f = self.parse_declare_function_or_hook_flow(ds, true);
            return self.exported(start, f, true);
        }
        let unescaped_async = self.check_unescaped_name(async_name.as_slice());
        if cs && unescaped_async && self.check_async_hook_flow() {
            let (s0, _) = self.lexer.cur_range();
            self.error_at(ErrorKind::AsyncDeclaredHook, s0, s0);
            self.advance();
            proof { use_type_invariant(&self.lexer); }
            let ghost e0 = self.errors@;
            let f = self.parse_declare_function_or_hook_flow(ds, true);
            assert(self.errors@ =~= old(self).errors@ + (seq![e0.last()] + self.errors@.skip(e0.len() as int)));
            return self.exported(start, f, true);
        }
        if cs && unescaped_async && self.check_async_component_flow() {
            let (s0, _) = self.lexer.cur_range();
            self.error_at(ErrorKind::AsyncDeclaredComponent, s0, s0);
            self.advance();
            self.error_cur(ErrorKind::Unsupported(UnsupportedSyntax::ComponentDeclaration));
            assert(self.errors@ =~= old(self).errors@ + self.errors@.skip(old(self).errors@.len() as int));
            return None;
        }
        if cs && self.check_component_declaration_flow() {
            self.error_cur(ErrorKind::Unsupported(UnsupportedSyntax::ComponentDeclaration));
            assert(self.errors@ =~= old(self).errors@ + seq![self.errors@.last()]);
            return None;
        }
        if self.check(TokenKind::rw_class) {
            let c = self.parse_declare_class_flow(ds);
            return self.exported(start, c, true);
        }
        let t = match self.parse_type_annotation_flow(None) {
            Some(t) => t,
            None => {
                assert(self.errors@ =~= old(self).errors@ + seq![self.errors@.last()]);
                return None;
            },
        };
        proof { use_type_invariant(&self.lexer); }
        if !self.eat_semi() {
            assert(self.errors@ =~= old(self).errors@ + seq![self.errors@.last()]);
            return None;
        }
        let end = self.lexer.prev_token_end();
        assert(self.errors@ =~= old(self).errors@ + Seq::<ParseError>::empty());
        Some(
            FlowDeclaration::Declaration(
                Expr { parens: 0,
                    node: Node::DeclareExportDeclaration {
                        declaration: Some(Box::new(t)),
                        specifiers: NodeList::Nil,
                        source: None,
                        is_default: true,
                    },
                    start,
                    end,
                },
            ),
        )
    }

    /// Parse the declaration part of `declare export *` (the `*` read),
    /// which started at `start`: `from`, the module, and the end of the
    /// statement.
    fn parse_declare_export_all(&mut self, start: usize) -> (r: Option<FlowDeclaration>)
        requires
            old(self).lexer@.is_fresh(),
        ensures
            ({
                let toks = old(self).lexer@.tokens;
                let q1 = old(self).lexer@.pos;
                let (res, errs, q) = if !is_name_at(toks, q1, spec_from_name()) {
                    (None, seq![spec_point(ErrorKind::ExpectedFromClause, toks, q1)], q1)
                } else {
                    match spec_from_clause(toks, q1) {
                        (Err(e), r) => (None, seq![e], r),
                        (Ok(src), r) => {
                            let (ok, r2) = spec_eat_semi(toks, r);
                            if !ok {
                                (None, seq![err_at(ErrorKind::Expected(TokenKind::semi), toks[r])], r)
                            } else {
                                (Some(FlowDeclarationView::Declaration(Expr { parens: 0,
                                    node: Node::DeclareExportAllDeclaration { source: Box::new(src) },
                                    start,
                                    end: spec_prev_end(toks, r2),
                                })), Seq::empty(), r2)
                            }
                        },
                    }
                };
                &&& match r {
                    Some(d) => res == Some(d@),
                    None => res is None,
                }
                &&& final(self).errors@ == old(self).errors@ + errs
                &&& final(self).lexer@ == old(self).lexer@.at(q)
                &&& final(self).options == old(self).options
            }),
    {
        proof { use_type_invariant(&self.lexer); }
        assert(old(self).lexer@.at(old(self).lexer@.pos) == old(self).lexer@);
        let from_name: [u8; 4] = [102u8, 114u8, 111u8, 109u8];
        assert(from_name@ =~= spec_from_name());
        if !self.check_name(from_name.as_slice()) {
            let (s0, _) = self.lexer.cur_range();
            self.error_at(ErrorKind::ExpectedFromClause, s0, s0);
            assert(self.errors@ =~= old(self).errors@ + seq![self.errors@.last()]);
            return None;
        }
        let source = match self.parse_from_clause() {
            Some(x) => x,
            None => {
                assert(self.errors@ =~= old(self).errors@ + seq![self.errors@.last()]);
                return None;
            },
        };
        proof { use_type_invariant(&self.lexer); }
        if !self.eat_semi() {
            assert(self.errors@ =~= old(self).errors@ + seq![self.errors@.last()]);
            return None;
        }
        let end = self.lexer.prev_token_end();
        assert(self.errors@ =~= old(self).errors@ + Seq::<ParseError>::empty());
        Some(
            FlowDeclaration::Declaration(
                Expr { parens: 0, node: Node::DeclareExportAllDeclaration { source: Box::new(source) }, start, end },
            ),
        )
    }

    /// Parse what `declare export`, which started at `start`, exports when
    /// it is not a default export: a function, with component syntax a hook
    /// (`async` before it is reported and skipped), a class, an enum, a
    /// variable, an opaque type, a type alias, an interface, or everything
    /// from a module (`* from`). Components and lists of export specifiers
    /// are reported as unsupported.
    #[verifier::rlimit(100)]
    #[verifier::spinoff_prover]
    fn parse_declare_export_named(&mut self, start: usize) -> (r: Option<FlowDeclaration>)
        requires
            old(self).lexer@.is_fresh(),
        ensures
            ({
                let (res, errs, q) = spec_declare_export_named(old(self).lexer@, old(self).options, start);
                &&& match r {
                    Some(d) => res == Some(d@),
                    None => res is None,
                }
                &&& final(self).errors@ == old(self).errors@ + errs
                &&& final(self).lexer@ == old(self).lexer@.at(q)
                &&& final(self).options == old(self).options
            }),
    {
        reveal(spec_declare_export_named);
        proof { use_type_invariant(&self.lexer); }
        assert(old(self).lexer@.at(old(self).lexer@.pos) == old(self).lexer@);
        let (ds, _) = self.lexer.cur_range();
        let async_name: [u8; 5] = [97u8, 115u8, 121u8, 110u8, 99u8];
        let let_name: [u8; 3] = [108u8, 101u8, 116u8];
        proof {
            assert(async_name@ =~= spec_async_name());
            assert(let_name@ =~= spec_let_name());
        }
        let cs = self.options.parse_flow_component_syntax;
        if self.check(TokenKind::rw_function) {
            let f = self.parse_declare_function_or_hook_flow(ds, false);
            return self.exported(start, f, false);
        }
        if cs && self.check_hook_declaration_flow() {
            let f = self.parse_declare_function_or_hook_flow(ds, true);
            return self.exported(start, f, false);
        }
        let unescaped_async = self.check_unescaped_name(async_name.as_slice());
        if cs && unescaped_async && self.check_async_hook_flow() {
            let (s0, _) = self.lexer.cur_range();
            self.error_at(ErrorKind::AsyncDeclaredHook, s0, s0);
            self.advance();
            proof { use_type_invariant(&self.lexer); }
            let ghost e0 = self.errors@;
            let f = self.parse_declare_function_or_hook_flow(ds, true);
            assert(self.errors@ =~= old(self).errors@ + (seq![e0.last()] + self.errors@.skip(e0.len() as int)));
            return self.exported(start, f, false);
        }
        if self.check(TokenKind::rw_class) {
            let c = self.parse_declare_class_flow(ds);
            return self.exported(start, c, false);
        }
        if cs && unescaped_async && self.check_async_component_flow() {
            let (s0, _) = self.lexer.cur_range();
            self.error_at(ErrorKind::AsyncDeclaredComponent, s0, s0);
            self.advance();
            self.error_cur(ErrorKind::Unsupported(UnsupportedSyntax::ComponentDeclaration));
            assert(self.errors@ =~= old(self).errors@ + self.errors@.skip(old(self).errors@.len() as int));
            return None;
        }
        if cs && self.check_component_declaration_flow() {
            self.error_cur(ErrorKind::Unsupported(UnsupportedSyntax::ComponentDeclaration));
            assert(self.errors@ =~= old(self).errors@ + seq![self.errors@.last()]);
            return None;
        }
        if self.check(TokenKind::rw_enum) {
            return match self.parse_enum_declaration_flow(start, true) {
                Some(d) => {
                    let end = d.end;
                    assert(self.errors@ =~= old(self).errors@ + Seq::<ParseError>::empty());
                    Some(FlowDeclaration::ExportedEnum(d, start, end))
                },
                None => {
                    assert(self.errors@ =~= old(self).errors@ + seq![self.errors@.last()]);
                    None
                },
            };
        }
        if self.check2(TokenKind::rw_var, TokenKind::rw_const) || self.check_name(let_name.as_slice()) {
            let v = self.parse_declare_variable(ds);
            return self.exported(start, v, false);
        }
        self.parse_declare_export_type_or_all(start)
    }

    /// Parse the rest of what `declare export`, which started at `start`,
    /// exports: an opaque type, a type alias, an interface, or everything
    /// from a module (`* from`), or a list of export specifiers with an
    /// optional `from` clause.
    #[verifier::rlimit(100)]
    #[verifier::spinoff_prover]
    fn parse_declare_export_type_or_all(&mut self, start: usize) -> (r: Option<FlowDeclaration>)
        requires
            old(self).lexer@.is_fresh(),
        ensures
            ({
                let (res, errs, q) = spec_declare_export_type_or_all(old(self).lexer@, start);
                &&& match r {
                    Some(d) => res == Some(d@),
                    None => res is None,
                }
                &&& final(self).errors@ == old(self).errors@ + errs
                &&& final(self).lexer@ == old(self).lexer@.at(q)
                &&& final(self).options == old(self).options
            }),
    {
        reveal(spec_declare_export_type_or_all);
        proof { use_type_invariant(&self.lexer); }
        assert(old(self).lexer@.at(old(self).lexer@.pos) == old(self).lexer@);
        let (ds, _) = self.lexer.cur_range();
        let opaque_name: [u8; 6] = [111u8, 112u8, 97u8, 113u8, 117u8, 101u8];
        let type_kw: [u8; 4] = [116u8, 121u8, 112u8, 101u8];
        let interface_name: [u8; 9] = [105u8, 110u8, 116u8, 101u8, 114u8, 102u8, 97u8, 99u8, 101u8];
        proof {
            assert(opaque_name@ =~= spec_opaque_name());
            assert(type_kw@ =~= spec_type_keyword_name());
            assert(interface_name@ =~= spec_interface_name());
        }
        if self.check_name(opaque_name.as_slice()) {
            self.advance();
            proof { use_type_invariant(&self.lexer); }
            if !self.check_name(type_kw.as_slice()) {
                let (s0, _) = self.lexer.cur_range();
                self.error_at(ErrorKind::TypeRequiredAfterOpaque, s0, s0);
                assert(self.errors@ =~= old(self).errors@ + seq![self.errors@.last()]);
                return None;
            }
            self.advance();
            proof { use_type_invariant(&self.lexer); }
            let a = self.parse_type_alias_flow(ds, TypeAliasKind::DeclareOpaque);
            proof {
                if a is None {
                    assert(self.errors@ =~= old(self).errors@ + seq![self.errors@.last()]);
                } else {
                    assert(self.errors@ =~= old(self).errors@ + Seq::<ParseError>::empty());
                }
            }
            return self.exported(start, a, false);
        }
        if self.check_name(type_kw.as_slice()) {
            self.advance();
            proof { use_type_invariant(&self.lexer); }
            let a = self.parse_type_alias_flow(ds, TypeAliasKind::Plain);
            proof {
                if a is None {
                    assert(self.errors@ =~= old(self).errors@ + seq![self.errors@.last()]);
                } else {
                    assert(self.errors@ =~= old(self).errors@ + Seq::<ParseError>::empty());
                }
            }
            return self.exported(start, a, false);
        }
        if self.check(TokenKind::rw_interface) || self.check_name(interface_name.as_slice()) {
            let i = self.parse_interface_declaration_flow(None);
            return self.exported(start, i, false);
        }
        if self.check(TokenKind::star) {
            self.advance();
            proof { use_type_invariant(&self.lexer); }
            return self.parse_declare_export_all(start);
        }
        if self.check(TokenKind::l_brace) {
            return self.parse_declare_export_specifiers(start);
        }
        self.error_cur(ErrorKind::Expected(TokenKind::l_brace));
        assert(self.errors@ =~= old(self).errors@ + seq![self.errors@.last()]);
        None
    }

    /// Parse a `declare export`, with the current token at `export` after
    /// `declare`, which started at `start`: a default export after
    /// `default`, or another export.
    pub fn parse_declare_export_flow(&mut self, start: usize) -> (r: Option<FlowDeclaration>)
        requires
            old(self).lexer@.is_fresh(),
            old(self).lexer@.kind == TokenKind::rw_export,
        ensures
            ({
                let (res, errs, q) = spec_declare_export(old(self).lexer@, old(self).options, start);
                &&& match r {
                    Some(d) => res == Some(d@),
                    None => res is None,
                }
                &&& final(self).errors@ == old(self).errors@ + errs
                &&& final(self).lexer@ == old(self).lexer@.at(q)
                &&& final(self).options == old(self).options
            }),
    {
        proof { use_type_invariant(&self.lexer); }
        self.advance();
        proof { use_type_invariant(&self.lexer); }
        if self.check(TokenKind::rw_default) {
            self.advance();
            proof { use_type_invariant(&self.lexer); }
            return self.parse_declare_export_default(start);
        }
        self.parse_declare_export_named(start)
    }
}

// ---------------------------------------------------------------------------
// `record` declarations.
// ---------------------------------------------------------------------------

/// The name `prototype`.
pub open spec fn spec_prototype_name() -> Seq<u8> {
    seq![112u8, 114u8, 111u8, 116u8, 111u8, 116u8, 121u8, 112u8, 101u8]
}

/// The name `implements`.
pub open spec fn spec_implements_name() -> Seq<u8> {
    seq![105u8, 109u8, 112u8, 108u8, 101u8, 109u8, 101u8, 110u8, 116u8, 115u8]
}

/// The cursor state at `p` in `toks`.
pub open spec fn spec_lexer_at(toks: Seq<Token>, p: int) -> LexerState {
    LexerState { tokens: toks, pos: p, kind: toks[p].kind }
}

/// A member of a record body at `p`: the modifiers `static` and `async`
/// (each when what follows shows it to be one) and `*`, then a property
/// name, then `: T` and the separator `,` (which may be left out before the
/// closing `}`). Computed keys, private names, the key `constructor`, a
/// static key `prototype`, `async`/`*` on a property and a static property
/// without initializer are reported. Initializers and methods are reported
/// as unsupported.
#[verifier::opaque]
pub open spec fn spec_record_element(toks: Seq<Token>, p: int) -> (Result<Expr, ParseError>, int) {
    let ps = toks[p].start;
    let is_static = is_name_at(toks, p, spec_static_name()) && spec_is_record_modifier(spec_lexer_at(toks, p));
    let p1 = if is_static {
        step(toks, p)
    } else {
        p
    };
    let is_async = is_name_at(toks, p1, spec_async_name()) && spec_is_record_modifier(spec_lexer_at(toks, p1));
    let p2 = if is_async {
        step(toks, p1)
    } else {
        p1
    };
    let is_gen = toks[p2].kind == TokenKind::star;
    let p3 = if is_gen {
        step(toks, p2)
    } else {
        p2
    };
    if toks[p3].kind == TokenKind::l_square {
        (Err(spec_point(ErrorKind::RecordComputedProperty, toks, p3)), p3)
    } else if toks[p3].kind == TokenKind::private_identifier {
        (Err(spec_point(ErrorKind::RecordPrivateElement, toks, p3)), p3)
    } else {
        match spec_property_name(toks, p3) {
            (Err(e), r) => (Err(e), r),
            (Ok(key), r) => if is_name_at(toks, p3, spec_constructor_name()) || (is_static && is_name_at(
                toks,
                p3,
                spec_prototype_name(),
            )) {
                (Err(ParseError { kind: ErrorKind::InvalidRecordPropertyName, start: key.start, end: key.end }), r)
            } else if toks[r].kind == TokenKind::colon {
                if is_async || is_gen {
                    (Err(ParseError { kind: ErrorKind::RecordModifierOnProperty, start: key.start, end: key.end }), r)
                } else {
                    match spec_type_annotation_flow(toks, step(toks, r), Some(toks[r].start)) {
                        (Err(e), r2) => (Err(e), r2),
                        (Ok(ta), r2) => if toks[r2].kind == TokenKind::equal {
                            (Err(err_at(ErrorKind::Unsupported(UnsupportedSyntax::PropertyInitializer), toks[r2])), r2)
                        } else if is_static {
                            (Err(ParseError { kind: ErrorKind::StaticRecordPropertyInitializer, start: key.end, end: key.end }), r2)
                        } else {
                            let prop = Expr { parens: 0,
                                node: Node::RecordDeclarationProperty {
                                    key: Box::new(key),
                                    type_annotation: Box::new(ta),
                                    initializer: None,
                                },
                                start: ps,
                                end: ta.end,
                            };
                            if toks[r2].kind == TokenKind::r_brace || toks[r2].kind == TokenKind::eof {
                                (Ok(prop), r2)
                            } else if toks[r2].kind != TokenKind::comma {
                                (Err(err_at(ErrorKind::Expected(TokenKind::comma), toks[r2])), r2)
                            } else {
                                (Ok(prop), step(toks, r2))
                            }
                        },
                    }
                }
            } else if toks[r].kind == TokenKind::l_paren || toks[r].kind == TokenKind::less {
                (Err(err_at(ErrorKind::Unsupported(UnsupportedSyntax::RecordMethod), toks[r])), r)
            } else {
                (Err(ParseError { kind: ErrorKind::ExpectedRecordMember, start: key.end, end: key.end }), r)
            },
        }
    }
}

/// The members of a record body from `q` up to its closing `}`
/// (excluded), added to `acc`. Gives the members, the diagnostic that
/// stopped them, if any (the end of input before `}` among them), and the
/// position after.
pub open spec fn spec_record_elements(toks: Seq<Token>, q: int, acc: Seq<Expr>) -> (Seq<Expr>, Option<ParseError>, int)
    decreases toks.len() - q,
{
    if !(0 <= q < toks.len()) || toks[q].kind == TokenKind::r_brace {
        (acc, None, q)
    } else if toks[q].kind == TokenKind::eof {
        (acc, Some(err_at(ErrorKind::Expected(TokenKind::r_brace), toks[q])), q)
    } else {
        match spec_record_element(toks, q) {
            (Err(e), r) => (acc, Some(e), r),
            (Ok(el), r) => if q < r < toks.len() {
                spec_record_elements(toks, r, acc.push(el))
            } else {
                (acc.push(el), None, r)
            },
        }
    }
}

/// A record declaration at `p`, whose token is `record`, starting at
/// `start`: the name, optional type parameters, an optional `implements`
/// clause, and the body `{ members }`.
pub open spec fn spec_record_declaration(toks: Seq<Token>, p: int, start: usize) -> (Option<Expr>, Seq<ParseError>, int) {
    let q = step(toks, p);
    if toks[q].kind != TokenKind::identifier {
        (None, seq![err_at(ErrorKind::Expected(TokenKind::identifier), toks[q])], q)
    } else {
        let id = Expr { parens: 0, node: Node::Identifier(q as usize), start: toks[q].start, end: toks[q].end };
        let q1 = step(toks, q);
        let (tp, q2) = if toks[q1].kind == TokenKind::less {
            match spec_type_params(toks, q1) {
                (Err(e), r) => (Err(e), r),
                (Ok(t), r) => (Ok(Some(t)), r),
            }
        } else {
            (Ok(None), q1)
        };
        match tp {
            Err(e) => (None, seq![e], q2),
            Ok(tp) => {
                let (imp, err, q3) = if is_name_at(toks, q2, spec_implements_name()) {
                    spec_implements_list(toks, step(toks, q2), Seq::empty(), true)
                } else {
                    (Seq::<Expr>::empty(), None, q2)
                };
                if err is Some {
                    (None, seq![err->Some_0], q3)
                } else if toks[q3].kind != TokenKind::l_brace {
                    (None, seq![err_at(ErrorKind::Expected(TokenKind::l_brace), toks[q3])], q3)
                } else {
                    let (els, err2, r) = spec_record_elements(toks, step(toks, q3), Seq::empty());
                    if err2 is Some {
                        (None, seq![err2->Some_0], r)
                    } else if toks[r].kind != TokenKind::r_brace {
                        (None, seq![err_at(ErrorKind::Expected(TokenKind::r_brace), toks[r])], r)
                    } else {
                        let body = Expr { parens: 0,
                            node: Node::RecordDeclarationBody { elements: spec_list_of(els) },
                            start: toks[q3].start,
                            end: toks[r].end,
                        };
                        (Some(Expr { parens: 0,
                            node: Node::RecordDeclaration {
                                id: Box::new(id),
                                type_parameters: spec_boxed(tp),
                                implements: spec_list_of(imp),
                                body: Box::new(body),
                            },
                            start,
                            end: toks[r].end,
                        }), Seq::empty(), step(toks, r))
                    }
                }
            },
        }
    }
}

impl JSParserImpl {
    /// Parse a member of a record body: the modifiers `static` and `async`
    /// (each when what follows shows it to be one) and `*`, then a property
    /// name, then `: T` and the separator `,` (which may be left out before
    /// the closing `}`). Computed keys, private names, the key
    /// `constructor`, a static key `prototype`, `async`/`*` on a property
    /// and a static property without initializer are reported. Initializers
    /// and methods are reported as unsupported.
    #[verifier::rlimit(100)]
    #[verifier::spinoff_prover]
    fn parse_record_element(&mut self) -> (r: Option<Expr>)
        requires
            old(self).lexer@.is_fresh(),
        ensures
            ({
                let (res, q) = spec_record_element(old(self).lexer@.tokens, old(self).lexer@.pos);
                &&& final(self).options == old(self).options
                &&& final(self).lexer@ == old(self).lexer@.at(q)
                &&& match res {
                    Ok(e) => r == Some(e) && final(self).errors@ == old(self).errors@,
                    Err(e) => r is None && final(self).errors@ == old(self).errors@.push(e),
                }
            }),
            r is Some ==> final(self).lexer@.pos > old(self).lexer@.pos,
    {
        reveal(spec_record_element);
        proof { use_type_invariant(&self.lexer); }
        assert(old(self).lexer@.at(old(self).lexer@.pos) == old(self).lexer@);
        let (ps, _) = self.lexer.cur_range();
        let static_name: [u8; 6] = [115u8, 116u8, 97u8, 116u8, 105u8, 99u8];
        let async_name: [u8; 5] = [97u8, 115u8, 121u8, 110u8, 99u8];
        let constructor_name: [u8; 11] = [99u8, 111u8, 110u8, 115u8, 116u8, 114u8, 117u8, 99u8, 116u8, 111u8, 114u8];
        let prototype_name: [u8; 9] = [112u8, 114u8, 111u8, 116u8, 111u8, 116u8, 121u8, 112u8, 101u8];
        proof {
            assert(static_name@ =~= spec_static_name());
            assert(async_name@ =~= spec_async_name());
            assert(constructor_name@ =~= spec_constructor_name());
            assert(prototype_name@ =~= spec_prototype_name());
            assert(self.lexer@ == spec_lexer_at(self.lexer@.tokens, self.lexer@.pos));
        }
        let is_static = self.check_name(static_name.as_slice()) && self.is_record_modifier_keyword();
        if is_static {
            self.advance();
        }
        proof {
            use_type_invariant(&self.lexer);
            assert(self.lexer@ == spec_lexer_at(self.lexer@.tokens, self.lexer@.pos));
        }
        let is_async = self.check_name(async_name.as_slice()) && self.is_record_modifier_keyword();
        if is_async {
            self.advance();
        }
        proof { use_type_invariant(&self.lexer); }
        let is_gen = self.check_and_eat(TokenKind::star);
        proof { use_type_invariant(&self.lexer); }
        if self.check(TokenKind::l_square) || self.check(TokenKind::private_identifier) {
            let kind = if self.check(TokenKind::l_square) {
                ErrorKind::RecordComputedProperty
            } else {
                ErrorKind::RecordPrivateElement
            };
            let (s0, _) = self.lexer.cur_range();
            self.error_at(kind, s0, s0);
            return None;
        }
        let bad_name = self.check_name(constructor_name.as_slice()) || (is_static && self.check_name(
            prototype_name.as_slice(),
        ));
        let key = match self.parse_property_name() {
            Some(k) => k,
            None => return None,
        };
        proof { use_type_invariant(&self.lexer); }
        if bad_name {
            self.error_at(ErrorKind::InvalidRecordPropertyName, key.start, key.end);
            return None;
        }
        if self.check(TokenKind::colon) {
            if is_async || is_gen {
                self.error_at(ErrorKind::RecordModifierOnProperty, key.start, key.end);
                return None;
            }
            let (colon_start, _) = self.advance();
            proof { use_type_invariant(&self.lexer); }
            let ta = match self.parse_type_annotation_flow(Some(colon_start)) {
                Some(t) => t,
                None => return None,
            };
            proof { use_type_invariant(&self.lexer); }
            if self.check(TokenKind::equal) {
                self.error_cur(ErrorKind::Unsupported(UnsupportedSyntax::PropertyInitializer));
                return None;
            }
            if is_static {
                self.error_at(ErrorKind::StaticRecordPropertyInitializer, key.end, key.end);
                return None;
            }
            let end = ta.end;
            let prop = Expr { parens: 0,
                node: Node::RecordDeclarationProperty {
                    key: Box::new(key),
                    type_annotation: Box::new(ta),
                    initializer: None,
                },
                start: ps,
                end,
            };
            if self.check2(TokenKind::r_brace, TokenKind::eof) {
                return Some(prop);
            }
            if !self.eat(TokenKind::comma) {
                return None;
            }
            return Some(prop);
        }
        if self.check2(TokenKind::l_paren, TokenKind::less) {
            self.error_cur(ErrorKind::Unsupported(UnsupportedSyntax::RecordMethod));
            return None;
        }
        self.error_at(ErrorKind::ExpectedRecordMember, key.end, key.end);
        None
    }

    /// Parse the members of a record body up to its closing `}`, adding
    /// them to `elements`. Returns whether they were read; the end of input
    /// before `}` is reported.
    fn parse_record_elements(&mut self, elements: &mut Vec<Expr>) -> (r: bool)
        requires
            old(self).lexer@.is_fresh(),
        ensures
            ({
                let (els, err, q) = spec_record_elements(old(self).lexer@.tokens, old(self).lexer@.pos, old(elements)@);
                &&& r == (err is None)
                &&& final(elements)@ == els
                &&& final(self).errors@ == match err {
                    Some(e) => old(self).errors@.push(e),
                    None => old(self).errors@,
                }
                &&& final(self).lexer@ == old(self).lexer@.at(q)
                &&& final(self).options == old(self).options
            }),
        decreases old(self).lexer@.tokens.len() - old(self).lexer@.pos,
    {
        proof { use_type_invariant(&self.lexer); }
        assert(old(self).lexer@.at(old(self).lexer@.pos) == old(self).lexer@);
        if self.check(TokenKind::r_brace) {
            return true;
        }
        if self.check(TokenKind::eof) {
            self.error_cur(ErrorKind::Expected(TokenKind::r_brace));
            return false;
        }
        let el = match self.parse_record_element() {
            Some(e) => e,
            None => return false,
        };
        elements.push(el);
        proof { use_type_invariant(&self.lexer); }
        self.parse_record_elements(elements)
    }

    /// Parse a record declaration, with the current token at `record`, the
    /// declaration starting at `start`: the name, optional type parameters,
    /// an optional `implements` clause, and the body `{ members }`.
    #[verifier::rlimit(100)]
    #[verifier::spinoff_prover]
    pub fn parse_record_declaration_flow(&mut self, start: usize) -> (r: Option<Expr>)
        requires
            old(self).lexer@.is_fresh(),
        ensures
            ({
                let (res, errs, q) = spec_record_declaration(old(self).lexer@.tokens, old(self).lexer@.pos, start);
                &&& r == res
                &&& final(self).errors@ == old(self).errors@ + errs
                &&& final(self).lexer@ == old(self).lexer@.at(q)
                &&& final(self).options == old(self).options
            }),
    {
        proof { use_type_invariant(&self.lexer); }
        self.advance();
        proof { use_type_invariant(&self.lexer); }
        if !self.need(TokenKind::identifier) {
            assert(self.errors@ =~= old(self).errors@ + seq![self.errors@.last()]);
            return None;
        }
        let idx = self.lexer.cur_index();
        let (is, ie) = self.advance();
        let id = Expr { parens: 0, node: Node::Identifier(idx), start: is, end: ie };
        proof { use_type_invariant(&self.lexer); }
        let mut type_params: Option<Expr> = None;
        if self.check(TokenKind::less) {
            type_params = match self.parse_type_params_flow() {
                Some(t) => Some(t),
                None => {
                    assert(self.errors@ =~= old(self).errors@ + seq![self.errors@.last()]);
                    return None;
                },
            };
        }
        proof { use_type_invariant(&self.lexer); }
        let implements_name: [u8; 10] = [105u8, 109u8, 112u8, 108u8, 101u8, 109u8, 101u8, 110u8, 116u8, 115u8];
        assert(implements_name@ =~= spec_implements_name());
        let mut implements: Vec<Expr> = Vec::new();
        assert(implements@ =~= Seq::<Expr>::empty());
        if self.check_name(implements_name.as_slice()) {
            self.advance();
            proof { use_type_invariant(&self.lexer); }
            if !self.parse_implements_list(&mut implements, true) {
                assert(self.errors@ =~= old(self).errors@ + seq![self.errors@.last()]);
                return None;
            }
        }
        proof { use_type_invariant(&self.lexer); }
        if !self.need(TokenKind::l_brace) {
            assert(self.errors@ =~= old(self).errors@ + seq![self.errors@.last()]);
            return None;
        }
        let (body_start, _) = self.advance();
        proof { use_type_invariant(&self.lexer); }
        let mut elements: Vec<Expr> = Vec::new();
        assert(elements@ =~= Seq::<Expr>::empty());
        if !self.parse_record_elements(&mut elements) {
            assert(self.errors@ =~= old(self).errors@ + seq![self.errors@.last()]);
            return None;
        }
        proof { use_type_invariant(&self.lexer); }
        let (_, body_end) = self.lexer.cur_range();
        if !self.eat(TokenKind::r_brace) {
            assert(self.errors@ =~= old(self).errors@ + seq![self.errors@.last()]);
            return None;
        }
        assert(self.errors@ =~= old(self).errors@ + Seq::<ParseError>::empty());
        let body = Expr { parens: 0,
            node: Node::RecordDeclarationBody { elements: list_from_vec(elements) },
            start: body_start,
            end: body_end,
        };
        Some(
            Expr { parens: 0,
                node: Node::RecordDeclaration {
                    id: Box::new(id),
                    type_parameters: boxed(type_params),
                    implements: list_from_vec(implements),
                    body: Box::new(body),
                },
                start,
                end: body_end,
            },
        )
    }
}

// ---------------------------------------------------------------------------
// Export specifiers.
// ---------------------------------------------------------------------------

/// Whether a token of kind `k` can be a name in an export specifier: an
/// identifier or a reserved word.
pub open spec fn spec_is_identifier_name(k: TokenKind) -> bool {
    k == TokenKind::identifier || spec_is_reserved_word(k)
}

/// The export specifiers of a list from `q` up to its closing `}`
/// (excluded), added to `acc`: `local` or `local as exported`, separated by
/// commas, a trailing comma allowed. Gives the specifiers, the diagnostic
/// that stopped them, if any, and the position after.
pub open spec fn spec_export_specifiers(toks: Seq<Token>, q: int, acc: Seq<Expr>) -> (Seq<Expr>, Option<ParseError>, int)
    decreases toks.len() - q,
{
    if !(0 <= q < toks.len()) || toks[q].kind == TokenKind::r_brace {
        (acc, None, q)
    } else if !spec_is_identifier_name(toks[q].kind) {
        (acc, Some(err_at(ErrorKind::Expected(TokenKind::identifier), toks[q])), q)
    } else {
        let local = Expr { parens: 0, node: Node::Identifier(q as usize), start: toks[q].start, end: toks[q].end };
        let q1 = step(toks, q);
        let q1b = step(toks, q1);
        let (exported, err, q2) = if is_name_at(toks, q1, spec_as_name()) {
            if !spec_is_identifier_name(toks[q1b].kind) {
                (None, Some(err_at(ErrorKind::Expected(TokenKind::identifier), toks[q1b])), q1b)
            } else {
                (Some(Expr { parens: 0, node: Node::Identifier(q1b as usize), start: toks[q1b].start, end: toks[q1b].end }), None, step(toks, q1b))
            }
        } else {
            (None, None, q1)
        };
        if err is Some {
            (acc, err, q2)
        } else {
            let acc2 = acc.push(Expr { parens: 0,
                node: Node::ExportSpecifier { local: Box::new(local), exported: spec_boxed(exported) },
                start: toks[q].start,
                end: spec_prev_end(toks, q2),
            });
            if toks[q2].kind == TokenKind::comma && q < q2 < toks.len() {
                spec_export_specifiers(toks, step(toks, q2), acc2)
            } else if toks[q2].kind == TokenKind::r_brace {
                (acc2, None, q2)
            } else {
                (acc2, Some(err_at(ErrorKind::Expected(TokenKind::r_brace), toks[q2])), q2)
            }
        }
    }
}

/// `declare export { specifiers } from source;` at `q`, whose token is
/// `{`, the export starting at `start`: the list, an optional `from`
/// clause, and the end of the statement.
pub open spec fn spec_declare_export_specifiers(toks: Seq<Token>, q: int, start: usize) -> (
    Option<FlowDeclarationView>,
    Seq<ParseError>,
    int,
) {
    let (specs, err, r) = spec_export_specifiers(toks, step(toks, q), Seq::empty());
    if err is Some {
        (None, seq![err->Some_0], r)
    } else if toks[r].kind != TokenKind::r_brace {
        (None, seq![err_at(ErrorKind::Expected(TokenKind::r_brace), toks[r])], r)
    } else {
        let r1 = step(toks, r);
        let (src, r2) = if is_name_at(toks, r1, spec_from_name()) {
            match spec_from_clause(toks, r1) {
                (Err(e), r2) => (Err(e), r2),
                (Ok(x), r2) => (Ok(Some(x)), r2),
            }
        } else {
            (Ok(None), r1)
        };
        match src {
            Err(e) => (None, seq![e], r2),
            Ok(src) => {
                let (ok, r3) = spec_eat_semi(toks, r2);
                if !ok {
                    (None, seq![err_at(ErrorKind::Expected(TokenKind::semi), toks[r2])], r2)
                } else {
                    (Some(FlowDeclarationView::Declaration(Expr { parens: 0,
                        node: Node::DeclareExportDeclaration {
                            declaration: None,
                            specifiers: spec_list_of(specs),
                            source: spec_boxed(src),
                            is_default: false,
                        },
                        start,
                        end: spec_prev_end(toks, r3),
                    })), Seq::empty(), r3)
                }
            },
        }
    }
}

impl JSParserImpl {
    /// Parse the export specifiers of a list up to its closing `}`, adding
    /// them to `specs`: `local` or `local as exported`, separated by
    /// commas, a trailing comma allowed. Returns whether they were read.
    fn parse_export_specifiers(&mut self, specs: &mut Vec<Expr>) -> (r: bool)
        requires
            old(self).lexer@.is_fresh(),
        ensures
            ({
                let (out, err, q) = spec_export_specifiers(old(self).lexer@.tokens, old(self).lexer@.pos, old(specs)@);
                &&& r == (err is None)
                &&& final(specs)@ == out
                &&& final(self).errors@ == match err {
                    Some(e) => old(self).errors@.push(e),
                    None => old(self).errors@,
                }
                &&& final(self).lexer@ == old(self).lexer@.at(q)
                &&& final(self).options == old(self).options
            }),
        decreases old(self).lexer@.tokens.len() - old(self).lexer@.pos,
    {
        proof { use_type_invariant(&self.lexer); }
        assert(old(self).lexer@.at(old(self).lexer@.pos) == old(self).lexer@);
        if self.check(TokenKind::r_brace) {
            return true;
        }
        if !(self.check(TokenKind::identifier) || is_reserved_word(self.cur_kind())) {
            self.error_cur(ErrorKind::Expected(TokenKind::identifier));
            return false;
        }
        let idx = self.lexer.cur_index();
        let (ls, le) = self.advance();
        let local = Expr { parens: 0, node: Node::Identifier(idx), start: ls, end: le };
        proof { use_type_invariant(&self.lexer); }
        let as_name: [u8; 2] = [97u8, 115u8];
        assert(as_name@ =~= spec_as_name());
        let mut exported: Option<Expr> = None;
        if self.check_name(as_name.as_slice()) {
            self.advance();
            proof { use_type_invariant(&self.lexer); }
            if !(self.check(TokenKind::identifier) || is_reserved_word(self.cur_kind())) {
                self.error_cur(ErrorKind::Expected(TokenKind::identifier));
                return false;
            }
            let idx2 = self.lexer.cur_index();
            let (es, ee) = self.advance();
            exported = Some(Expr { parens: 0, node: Node::Identifier(idx2), start: es, end: ee });
        }
        proof { use_type_invariant(&self.lexer); }
        let end = self.lexer.prev_token_end();
        specs.push(Expr { parens: 0, node: Node::ExportSpecifier { local: Box::new(local), exported: boxed(exported) }, start: ls, end });
        if self.check(TokenKind::comma) {
            self.advance();
            return self.parse_export_specifiers(specs);
        }
        if self.check(TokenKind::r_brace) {
            return true;
        }
        self.error_cur(ErrorKind::Expected(TokenKind::r_brace));
        false
    }

    /// Parse `{ specifiers } from source;` of a `declare export` that
    /// started at `start`, with the current token at `{`: the list, an
    /// optional `from` clause, and the end of the statement.
    #[verifier::rlimit(100)]
    #[verifier::spinoff_prover]
    fn parse_declare_export_specifiers(&mut self, start: usize) -> (r: Option<FlowDeclaration>)
        requires
            old(self).lexer@.is_fresh(),
        ensures
            ({
                let (res, errs, q) = spec_declare_export_specifiers(old(self).lexer@.tokens, old(self).lexer@.pos, start);
                &&& match r {
                    Some(d) => res == Some(d@),
                    None => res is None,
                }
                &&& final(self).errors@ == old(self).errors@ + errs
                &&& final(self).lexer@ == old(self).lexer@.at(q)
                &&& final(self).options == old(self).options
            }),
    {
        proof { use_type_invariant(&self.lexer); }
        self.advance();
        proof { use_type_invariant(&self.lexer); }
        let mut specs: Vec<Expr> = Vec::new();
        assert(specs@ =~= Seq::<Expr>::empty());
        if !self.parse_export_specifiers(&mut specs) {
            assert(self.errors@ =~= old(self).errors@ + seq![self.errors@.last()]);
            return None;
        }
        proof { use_type_invariant(&self.lexer); }
        if !self.eat(TokenKind::r_brace) {
            assert(self.errors@ =~= old(self).errors@ + seq![self.errors@.last()]);
            return None;
        }
        proof { use_type_invariant(&self.lexer); }
        let from_name: [u8; 4] = [102u8, 114u8, 111u8, 109u8];
        assert(from_name@ =~= spec_from_name());
        let mut source: Option<Expr> = None;
        if self.check_name(from_name.as_slice()) {
            source = match self.parse_from_clause() {
                Some(x) => Some(x),
                None => {
                    assert(self.errors@ =~= old(self).errors@ + seq![self.errors@.last()]);
                    return None;
                },
            };
        }
        proof { use_type_invariant(&self.lexer); }
        if !self.eat_semi() {
            assert(self.errors@ =~= old(self).errors@ + seq![self.errors@.last()]);
            return None;
        }
        let end = self.lexer.prev_token_end();
        assert(self.errors@ =~= old(self).errors@ + Seq::<ParseError>::empty());
        Some(
            FlowDeclaration::Declaration(
                Expr { parens: 0,
                    node: Node::DeclareExportDeclaration {
                        declaration: None,
                        specifiers: list_from_vec(specs),
                        source: boxed(source),
                        is_default: false,
                    },
                    start,
                    end,
                },
            ),
        )
    }
}

// ---------------------------------------------------------------------------
// `export type`.
// ---------------------------------------------------------------------------

/// The diagnostics for the export specifiers `specs` whose local name is a
/// reserved word, which only a `from` clause makes valid: one over each
/// such name, in order.
pub open spec fn spec_invalid_exports(toks: Seq<Token>, specs: Seq<Expr>) -> Seq<ParseError>
    decreases specs.len(),
{
    if specs.len() == 0 {
        Seq::empty()
    } else {
        spec_invalid_exports(toks, specs.drop_last()) + match specs.last().node {
            Node::ExportSpecifier { local, .. } => match local.node {
                Node::Identifier(i) => if 0 <= i < toks.len() && toks[i as int].kind != TokenKind::identifier {
                    seq![ParseError { kind: ErrorKind::InvalidExportedName, start: local.start, end: local.end }]
                } else {
                    Seq::empty()
                },
                _ => Seq::empty(),
            },
            _ => Seq::empty(),
        }
    }
}

/// `export type ...` at `p`, whose token is `type`, the export starting at
/// `start`: `* from source;`, a list of export specifiers with an optional
/// `from` clause (without it, reserved words exported by name are
/// reported), or a type alias.
#[verifier::opaque]
pub open spec fn spec_export_type_declaration(toks: Seq<Token>, p: int, start: usize) -> (Option<Expr>, Seq<ParseError>, int) {
    let q = step(toks, p);
    if toks[q].kind == TokenKind::star {
        let q1 = step(toks, q);
        if !is_name_at(toks, q1, spec_from_name()) {
            (None, seq![spec_point(ErrorKind::ExpectedFromClause, toks, q1)], q1)
        } else {
            match spec_from_clause(toks, q1) {
                (Err(e), r) => (None, seq![e], r),
                (Ok(src), r) => {
                    let (ok, r2) = spec_eat_semi(toks, r);
                    if !ok {
                        (None, seq![err_at(ErrorKind::Expected(TokenKind::semi), toks[r])], r)
                    } else {
                        (Some(Expr { parens: 0,
                            node: Node::ExportAllDeclaration { source: Box::new(src), type_only: true },
                            start,
                            end: spec_prev_end(toks, r2),
                        }), Seq::empty(), r2)
                    }
                },
            }
        }
    } else if toks[q].kind == TokenKind::l_brace {
        let (specs, err, r) = spec_export_specifiers(toks, step(toks, q), Seq::empty());
        if err is Some {
            (None, seq![err->Some_0], r)
        } else if toks[r].kind != TokenKind::r_brace {
            (None, seq![err_at(ErrorKind::Expected(TokenKind::r_brace), toks[r])], r)
        } else {
            let r1 = step(toks, r);
            let (src, e0, r2) = if is_name_at(toks, r1, spec_from_name()) {
                match spec_from_clause(toks, r1) {
                    (Err(e), r2) => (Err(e), Seq::<ParseError>::empty(), r2),
                    (Ok(x), r2) => (Ok(Some(x)), Seq::<ParseError>::empty(), r2),
                }
            } else {
                (Ok(None), spec_invalid_exports(toks, specs), r1)
            };
            match src {
                Err(e) => (None, seq![e], r2),
                Ok(src) => {
                    let (ok, r3) = spec_eat_semi(toks, r2);
                    if !ok {
                        (None, e0.push(err_at(ErrorKind::Expected(TokenKind::semi), toks[r2])), r2)
                    } else {
                        (Some(Expr { parens: 0,
                            node: Node::ExportNamedDeclaration {
                                declaration: None,
                                specifiers: spec_list_of(specs),
                                source: spec_boxed(src),
                                type_only: true,
                            },
                            start,
                            end: spec_prev_end(toks, r3),
                        }), e0, r3)
                    }
                },
            }
        }
    } else if toks[q].kind == TokenKind::identifier {
        match spec_type_alias(toks, q, toks[p].start, TypeAliasKind::Plain) {
            (Err(e), r) => (None, seq![e], r),
            (Ok(a), r) => (Some(Expr { parens: 0,
                node: Node::ExportNamedDeclaration {
                    declaration: Some(Box::new(a)),
                    specifiers: NodeList::Nil,
                    source: None,
                    type_only: true,
                },
                start,
                end: a.end,
            }), Seq::empty(), r),
        }
    } else {
        (
            None,
            seq![err_at(ErrorKind::ExpectedOneOf3(TokenKind::star, TokenKind::l_brace, TokenKind::identifier), toks[q])],
            q,
        )
    }
}

impl JSParserImpl {
    /// Report the export specifiers of `specs` whose local name is a
    /// reserved word.
    fn report_invalid_exports(&mut self, specs: &Vec<Expr>)
        ensures
            final(self).errors@ == old(self).errors@ + spec_invalid_exports(old(self).lexer@.tokens, specs@),
            final(self).lexer@ == old(self).lexer@,
            final(self).options == old(self).options,
    {
        let ghost toks = self.lexer@.tokens;
        let mut i: usize = 0;
        while i < specs.len()
            invariant
                0 <= i <= specs@.len(),
                self.lexer@ == old(self).lexer@,
                self.options == old(self).options,
                toks == old(self).lexer@.tokens,
                self.errors@ == old(self).errors@ + spec_invalid_exports(toks, specs@.take(i as int)),
            decreases specs@.len() - i,
        {
            proof {
                assert(specs@.take(i + 1).drop_last() =~= specs@.take(i as int));
                assert(specs@.take(i + 1).last() == specs@[i as int]);
            }
            let bad: Option<(usize, usize)> = match &specs[i].node {
                Node::ExportSpecifier { local, .. } => match local.node {
                    Node::Identifier(j) => match self.lexer.kind_at(j) {
                        Some(k) => if k != TokenKind::identifier {
                            Some((local.start, local.end))
                        } else {
                            None
                        },
                        None => None,
                    },
                    _ => None,
                },
                _ => None,
            };
            match bad {
                Some((s0, e0)) => self.error_at(ErrorKind::InvalidExportedName, s0, e0),
                None => {},
            }
            assert(self.errors@ =~= old(self).errors@ + spec_invalid_exports(toks, specs@.take(i + 1)));
            i = i + 1;
        }
        assert(specs@.take(specs@.len() as int) =~= specs@);
    }

    /// Parse `export type ...`, with the current token at `type`, the export
    /// starting at `start`: `* from source;`, a list of export specifiers
    /// with an optional `from` clause (without it, reserved words exported
    /// by name are reported), or a type alias.
    #[verifier::rlimit(100)]
    #[verifier::spinoff_prover]
    pub fn parse_export_type_declaration_flow(&mut self, start: usize) -> (r: Option<Expr>)
        requires
            old(self).lexer@.is_fresh(),
        ensures
            ({
                let (res, errs, q) = spec_export_type_declaration(old(self).lexer@.tokens, old(self).lexer@.pos, start);
                &&& r == res
                &&& final(self).errors@ == old(self).errors@ + errs
                &&& final(self).lexer@ == old(self).lexer@.at(q)
                &&& final(self).options == old(self).options
            }),
    {
        reveal(spec_export_type_declaration);
        proof { use_type_invariant(&self.lexer); }
        let (type_start, _) = self.advance();
        proof { use_type_invariant(&self.lexer); }
        let from_name: [u8; 4] = [102u8, 114u8, 111u8, 109u8];
        assert(from_name@ =~= spec_from_name());
        if self.check(TokenKind::star) {
            self.advance();
            proof { use_type_invariant(&self.lexer); }
            if !self.check_name(from_name.as_slice()) {
                let (s0, _) = self.lexer.cur_range();
                self.error_at(ErrorKind::ExpectedFromClause, s0, s0);
                assert(self.errors@ =~= old(self).errors@ + seq![self.errors@.last()]);
                return None;
            }
            let source = match self.parse_from_clause() {
                Some(x) => x,
                None => {
                    assert(self.errors@ =~= old(self).errors@ + seq![self.errors@.last()]);
                    return None;
                },
            };
            proof { use_type_invariant(&self.lexer); }
            if !self.eat_semi() {
                assert(self.errors@ =~= old(self).errors@ + seq![self.errors@.last()]);
                return None;
            }
            let end = self.lexer.prev_token_end();
            assert(self.errors@ =~= old(self).errors@ + Seq::<ParseError>::empty());
            return Some(Expr { parens: 0, node: Node::ExportAllDeclaration { source: Box::new(source), type_only: true }, start, end });
        }
        if self.check(TokenKind::l_brace) {
            self.advance();
            proof { use_type_invariant(&self.lexer); }
            let mut specs: Vec<Expr> = Vec::new();
            assert(specs@ =~= Seq::<Expr>::empty());
            if !self.parse_export_specifiers(&mut specs) {
                assert(self.errors@ =~= old(self).errors@ + seq![self.errors@.last()]);
                return None;
            }
            proof { use_type_invariant(&self.lexer); }
            if !self.eat(TokenKind::r_brace) {
                assert(self.errors@ =~= old(self).errors@ + seq![self.errors@.last()]);
                return None;
            }
            proof { use_type_invariant(&self.lexer); }
            let mut source: Option<Expr> = None;
            if self.check_name(from_name.as_slice()) {
                source = match self.parse_from_clause() {
                    Some(x) => Some(x),
                    None => {
                        assert(self.errors@ =~= old(self).errors@ + seq![self.errors@.last()]);
                        return None;
                    },
                };
            } else {
                self.report_invalid_exports(&specs);
            }
            let ghost e0 = self.errors@.skip(old(self).errors@.len() as int);
            assert(self.errors@ =~= old(self).errors@ + e0);
            proof { use_type_invariant(&self.lexer); }
            if !self.eat_semi() {
                assert(self.errors@ =~= old(self).errors@ + e0.push(self.errors@.last()));
                return None;
            }
            let end = self.lexer.prev_token_end();
            return Some(
                Expr { parens: 0,
                    node: Node::ExportNamedDeclaration {
                        declaration: None,
                        specifiers: list_from_vec(specs),
                        source: boxed(source),
                        type_only: true,
                    },
                    start,
                    end,
                },
            );
        }
        if self.check(TokenKind::identifier) {
            let alias = match self.parse_type_alias_flow(type_start, TypeAliasKind::Plain) {
                Some(a) => a,
                None => {
                    assert(self.errors@ =~= old(self).errors@ + seq![self.errors@.last()]);
                    return None;
                },
            };
            let end = alias.end;
            assert(self.errors@ =~= old(self).errors@ + Seq::<ParseError>::empty());
            return Some(
                Expr { parens: 0,
                    node: Node::ExportNamedDeclaration {
                        declaration: Some(Box::new(alias)),
                        specifiers: NodeList::Nil,
                        source: None,
                        type_only: true,
                    },
                    start,
                    end,
                },
            );
        }
        self.error_cur(ErrorKind::ExpectedOneOf3(TokenKind::star, TokenKind::l_brace, TokenKind::identifier));
        assert(self.errors@ =~= old(self).errors@ + seq![self.errors@.last()]);
        None
    }
}

// ---------------------------------------------------------------------------
// `declare module`.
// ---------------------------------------------------------------------------

/// The name `exports`.
pub open spec fn spec_exports_name() -> Seq<u8> {
    seq![101u8, 120u8, 112u8, 111u8, 114u8, 116u8, 115u8]
}

/// `declare module` at `p`, whose token is `module`, after `declare`,
/// which started at `start`: `.exports: T` with an optional `;`, or the
/// module's name (a string or an identifier) and its body `{ }`.
/// Statements in the body are reported as unsupported.
#[verifier::opaque]
pub open spec fn spec_declare_module(toks: Seq<Token>, p: int, start: usize) -> (Option<Expr>, Seq<ParseError>, int) {
    let q = step(toks, p);
    if toks[q].kind == TokenKind::period {
        let q1 = step(toks, q);
        let q2 = step(toks, q1);
        if !is_name_at(toks, q1, spec_exports_name()) {
            (None, seq![err_at(ErrorKind::ExpectedModuleExports, toks[q1])], q1)
        } else if toks[q2].kind != TokenKind::colon {
            (None, seq![err_at(ErrorKind::Expected(TokenKind::colon), toks[q2])], q2)
        } else {
            match spec_type_annotation_flow(toks, step(toks, q2), Some(toks[q2].start)) {
                (Err(e), r) => (None, seq![e], r),
                (Ok(ta), r) => {
                    let r2 = if toks[r].kind == TokenKind::semi {
                        step(toks, r)
                    } else {
                        r
                    };
                    (Some(Expr { parens: 0,
                        node: Node::DeclareModuleExports { type_annotation: Box::new(ta) },
                        start,
                        end: spec_prev_end(toks, r2),
                    }), Seq::empty(), r2)
                },
            }
        }
    } else if toks[q].kind != TokenKind::string_literal && toks[q].kind != TokenKind::identifier {
        (None, seq![err_at(ErrorKind::Expected(TokenKind::identifier), toks[q])], q)
    } else {
        let id = Expr { parens: 0,
            node: if toks[q].kind == TokenKind::string_literal {
                Node::StringLiteral(q as usize)
            } else {
                Node::Identifier(q as usize)
            },
            start: toks[q].start,
            end: toks[q].end,
        };
        let q1 = step(toks, q);
        let q2 = step(toks, q1);
        if toks[q1].kind != TokenKind::l_brace {
            (None, seq![err_at(ErrorKind::Expected(TokenKind::l_brace), toks[q1])], q1)
        } else if toks[q2].kind != TokenKind::r_brace {
            (None, seq![err_at(ErrorKind::Unsupported(UnsupportedSyntax::ModuleBodyStatement), toks[q2])], q2)
        } else {
            let body = Expr { parens: 0, node: Node::BlockStatement { body: NodeList::Nil }, start: toks[q1].start, end: toks[q2].end };
            (Some(Expr { parens: 0,
                node: Node::DeclareModule { id: Box::new(id), body: Box::new(body) },
                start,
                end: toks[q2].end,
            }), Seq::empty(), step(toks, q2))
        }
    }
}

impl JSParserImpl {
    /// Parse `declare module`, with the current token at `module` after
    /// `declare`, which started at `start`: `.exports: T` with an optional
    /// `;`, or the module's name (a string or an identifier) and its body
    /// `{ }`. Statements in the body are reported as unsupported.
    #[verifier::rlimit(100)]
    #[verifier::spinoff_prover]
    pub fn parse_declare_module_flow(&mut self, start: usize) -> (r: Option<Expr>)
        requires
            old(self).lexer@.is_fresh(),
        ensures
            ({
                let (res, errs, q) = spec_declare_module(old(self).lexer@.tokens, old(self).lexer@.pos, start);
                &&& r == res
                &&& final(self).errors@ == old(self).errors@ + errs
                &&& final(self).lexer@ == old(self).lexer@.at(q)
                &&& final(self).options == old(self).options
            }),
    {
        reveal(spec_declare_module);
        proof { use_type_invariant(&self.lexer); }
        self.advance();
        proof { use_type_invariant(&self.lexer); }
        if self.check(TokenKind::period) {
            self.advance();
            proof { use_type_invariant(&self.lexer); }
            let exports_name: [u8; 7] = [101u8, 120u8, 112u8, 111u8, 114u8, 116u8, 115u8];
            assert(exports_name@ =~= spec_exports_name());
            if !self.check_name(exports_name.as_slice()) {
                self.error_cur(ErrorKind::ExpectedModuleExports);
                assert(self.errors@ =~= old(self).errors@ + seq![self.errors@.last()]);
                return None;
            }
            self.advance();
            proof { use_type_invariant(&self.lexer); }
            let (annot_start, _) = self.lexer.cur_range();
            if !self.eat(TokenKind::colon) {
                assert(self.errors@ =~= old(self).errors@ + seq![self.errors@.last()]);
                return None;
            }
            let ta = match self.parse_type_annotation_flow(Some(annot_start)) {
                Some(t) => t,
                None => {
                    assert(self.errors@ =~= old(self).errors@ + seq![self.errors@.last()]);
                    return None;
                },
            };
            proof { use_type_invariant(&self.lexer); }
            self.check_and_eat(TokenKind::semi);
            let end = self.lexer.prev_token_end();
            assert(self.errors@ =~= old(self).errors@ + Seq::<ParseError>::empty());
            return Some(Expr { parens: 0, node: Node::DeclareModuleExports { type_annotation: Box::new(ta) }, start, end });
        }
        if !self.check2(TokenKind::string_literal, TokenKind::identifier) {
            self.error_cur(ErrorKind::Expected(TokenKind::identifier));
            assert(self.errors@ =~= old(self).errors@ + seq![self.errors@.last()]);
            return None;
        }
        let idx = self.lexer.cur_index();
        let node = if self.check(TokenKind::string_literal) {
            Node::StringLiteral(idx)
        } else {
            Node::Identifier(idx)
        };
        let (is, ie) = self.advance();
        let id = Expr { parens: 0, node, start: is, end: ie };
        proof { use_type_invariant(&self.lexer); }
        let (body_start, _) = self.lexer.cur_range();
        if !self.eat(TokenKind::l_brace) {
            assert(self.errors@ =~= old(self).errors@ + seq![self.errors@.last()]);
            return None;
        }
        proof { use_type_invariant(&self.lexer); }
        if !self.check(TokenKind::r_brace) {
            self.error_cur(ErrorKind::Unsupported(UnsupportedSyntax::ModuleBodyStatement));
            assert(self.errors@ =~= old(self).errors@ + seq![self.errors@.last()]);
            return None;
        }
        let (_, body_end) = self.advance();
        assert(self.errors@ =~= old(self).errors@ + Seq::<ParseError>::empty());
        let body = Expr { parens: 0, node: Node::BlockStatement { body: NodeList::Nil }, start: body_start, end: body_end };
        Some(Expr { parens: 0, node: Node::DeclareModule { id: Box::new(id), body: Box::new(body) }, start, end: body_end })
    }
}

// ---------------------------------------------------------------------------
// Render types.
// ---------------------------------------------------------------------------

/// The operator of a render type.
#[derive(Clone, Copy, Debug, PartialEq, Eq, Structural)]
pub enum RenderKind {
    /// `renders`
    Renders,
    /// `renders?`
    RendersMaybe,
    /// `renders*`
    RendersStar,
}

/// The name `renders`.
pub open spec fn spec_renders_name() -> Seq<u8> {
    seq![114u8, 101u8, 110u8, 100u8, 101u8, 114u8, 115u8]
}

/// Whether a token of kind `kind` is spelled starting with `?`.
pub open spec fn spec_starts_with_question(kind: TokenKind) -> bool {
    kind == TokenKind::question || kind == TokenKind::questionquestion || kind == TokenKind::questiondot
        || kind == TokenKind::questionquestionequal
}

/// Whether a token of kind `kind` is spelled starting with `*`.
pub open spec fn spec_starts_with_star(kind: TokenKind) -> bool {
    kind == TokenKind::star || kind == TokenKind::starstar || kind == TokenKind::starequal
        || kind == TokenKind::starstarequal
}

/// Whether the token after `p` starts right where the token at `p` ends.
pub open spec fn spec_adjacent(toks: Seq<Token>, p: int) -> bool {
    0 <= p && p + 1 < toks.len() && toks[p + 1].start == toks[p].end
}

/// The render operator whose `renders` keyword is at `p`: `renders?` when
/// a `?` directly follows the keyword, `renders*` when a `*` does, plain
/// `renders` otherwise. The `?` or `*` must be a token of its own.
pub open spec fn spec_render_type_operator(toks: Seq<Token>, p: int) -> (Option<RenderKind>, Seq<ParseError>, int) {
    let q = step(toks, p);
    if spec_adjacent(toks, p) && spec_starts_with_question(toks[q].kind) {
        if toks[q].kind == TokenKind::question {
            (Some(RenderKind::RendersMaybe), Seq::empty(), step(toks, q))
        } else {
            (None, seq![err_at(ErrorKind::Expected(TokenKind::question), toks[q])], q)
        }
    } else if spec_adjacent(toks, p) && spec_starts_with_star(toks[q].kind) {
        if toks[q].kind == TokenKind::star {
            (Some(RenderKind::RendersStar), Seq::empty(), step(toks, q))
        } else {
            (None, seq![err_at(ErrorKind::Expected(TokenKind::star), toks[q])], q)
        }
    } else {
        (Some(RenderKind::Renders), Seq::empty(), q)
    }
}

/// A parse result with its diagnostic, as the result, the diagnostics and
/// the position.
pub open spec fn spec_with_errors(r: (Result<Expr, ParseError>, int)) -> (Option<Expr>, Seq<ParseError>, int) {
    match r {
        (Ok(e), q) => (Some(e), Seq::empty(), q),
        (Err(x), q) => (None, seq![x], q),
    }
}

/// A render type at `p`, whose token is `renders`: the operator, then the
/// type rendered, which for a component type is a primary type and
/// otherwise a full type. The type is parsed even when the operator was
/// reported.
pub open spec fn spec_component_render_type(toks: Seq<Token>, p: int, component_type: bool) -> (Option<Expr>, Seq<ParseError>, int) {
    let (op, e1, q) = spec_render_type_operator(toks, p);
    let (body, e2, r) = if component_type {
        spec_with_errors(spec_primary_type(toks, q))
    } else {
        spec_with_errors(spec_type(toks, q))
    };
    match (op, body) {
        (Some(o), Some(b)) => (Some(Expr { parens: 0,
            node: Node::TypeOperator { render: o, type_annotation: Box::new(b) },
            start: toks[p].start,
            end: spec_prev_end(toks, r),
        }), e1 + e2, r),
        _ => (None, e1 + e2, r),
    }
}

impl JSParserImpl {
    /// Parse the operator of a render type, with the current token at the
    /// name `renders`: `renders?` when a `?` directly follows the keyword,
    /// `renders*` when a `*` does, plain `renders` otherwise.
    pub fn parse_render_type_operator(&mut self) -> (r: Option<RenderKind>)
        requires
            old(self).lexer@.is_fresh(),
            old(self).lexer@.is_name(spec_renders_name()),
        ensures
            ({
                let (res, errs, q) = spec_render_type_operator(old(self).lexer@.tokens, old(self).lexer@.pos);
                &&& r == res
                &&& final(self).errors@ == old(self).errors@ + errs
                &&& final(self).lexer@ == old(self).lexer@.at(q)
                &&& final(self).options == old(self).options
            }),
    {
        proof { use_type_invariant(&self.lexer); }
        let idx = self.lexer.cur_index();
        let (_, end) = self.lexer.cur_range();
        let n = self.lexer.token_count();
        assert(idx < n);
        let (next_kind, adjacent) = if idx + 1 < n {
            let t = self.lexer.token_at(idx + 1);
            (t.kind, t.start == end)
        } else {
            (TokenKind::eof, false)
        };
        let question = next_kind == TokenKind::question || next_kind == TokenKind::questionquestion
            || next_kind == TokenKind::questiondot || next_kind == TokenKind::questionquestionequal;
        let star = next_kind == TokenKind::star || next_kind == TokenKind::starstar || next_kind == TokenKind::starequal
            || next_kind == TokenKind::starstarequal;
        if adjacent && question {
            self.advance();
            if !self.eat(TokenKind::question) {
                assert(self.errors@ =~= old(self).errors@ + seq![err_at(ErrorKind::Expected(TokenKind::question), self.lexer@.cur())]);
                return None;
            }
            assert(self.errors@ =~= old(self).errors@ + Seq::<ParseError>::empty());
            Some(RenderKind::RendersMaybe)
        } else if adjacent && star {
            self.advance();
            if !self.eat(TokenKind::star) {
                assert(self.errors@ =~= old(self).errors@ + seq![err_at(ErrorKind::Expected(TokenKind::star), self.lexer@.cur())]);
                return None;
            }
            assert(self.errors@ =~= old(self).errors@ + Seq::<ParseError>::empty());
            Some(RenderKind::RendersStar)
        } else {
            self.advance();
            assert(self.errors@ =~= old(self).errors@ + Seq::<ParseError>::empty());
            Some(RenderKind::Renders)
        }
    }

    /// Parse a render type `renders T`, with the current token at the name
    /// `renders`. For a component type the type rendered is a primary type,
    /// otherwise a full type; it is parsed even when the operator was
    /// reported.
    pub fn parse_component_render_type_flow(&mut self, component_type: bool) -> (r: Option<Expr>)
        requires
            old(self).lexer@.is_fresh(),
            old(self).lexer@.is_name(spec_renders_name()),
        ensures
            ({
                let (res, errs, q) = spec_component_render_type(old(self).lexer@.tokens, old(self).lexer@.pos, component_type);
                &&& r == res
                &&& final(self).errors@ == old(self).errors@ + errs
                &&& final(self).lexer@ == old(self).lexer@.at(q)
                &&& final(self).options == old(self).options
            }),
    {
        let (start, _) = self.lexer.cur_range();
        let operator = self.parse_render_type_operator();
        let ghost e1 = self.errors@;
        let body = if component_type {
            self.parse_primary_type_annotation_flow()
        } else {
            self.parse_type_annotation_flow(None)
        };
        assert(self.errors@ =~= old(self).errors@ + (e1.skip(old(self).errors@.len() as int) + self.errors@.skip(e1.len() as int)));
        match (operator, body) {
            (Some(o), Some(b)) => {
                let end = self.lexer.prev_token_end();
                Some(Expr { parens: 0, node: Node::TypeOperator { render: o, type_annotation: Box::new(b) }, start, end })
            },
            _ => None,
        }
    }
}

/// An enum member that parses moves past its name, so the comma after it
/// is further on still.
proof fn lemma_enum_member_advances(toks: Seq<Token>, p: int)
    requires
        toks.len() > 0,
        toks.last().kind == TokenKind::eof,
        0 <= p < toks.len(),
        toks[p].kind == TokenKind::identifier,
        spec_enum_member(toks, p).0 is Ok,
    ensures
        p < spec_enum_member(toks, p).1,
        spec_enum_member(toks, p).1 < toks.len(),
        spec_enum_member(toks, p).1 <= step(toks, spec_enum_member(toks, p).1),
{
}

/// The bytes of an ASCII name.
pub open spec fn spec_ascii_bytes(name: Seq<char>) -> Seq<u8> {
    name.map_values(|c: char| c as u8)
}

/// Law: after `of`, the enum kind is the one whose name (as written by
/// `enum_kind_str_flow`) is the identifier that follows, and no kind is
/// given when that identifier names none of them or `of` is missing.
pub proof fn law_enum_explicit_kind_is_written_name(toks: Seq<Token>, q: int, k: EnumKind)
    ensures
        spec_enum_explicit_type(toks, q).0 == Some(k) <==> (is_name_at(toks, q, spec_of_name())
            && is_name_at(toks, step(toks, q), spec_ascii_bytes(spec_enum_kind_str(k)))),
{
    reveal_strlit("string");
    reveal_strlit("number");
    reveal_strlit("bigint");
    reveal_strlit("boolean");
    reveal_strlit("symbol");
    assert(spec_ascii_bytes("string"@) =~= spec_string_name());
    assert(spec_ascii_bytes("number"@) =~= spec_number_name());
    assert(spec_ascii_bytes("bigint"@) =~= spec_bigint_name());
    assert(spec_ascii_bytes("boolean"@) =~= spec_boolean_name());
    assert(spec_ascii_bytes("symbol"@) =~= spec_symbol_name());
}

} // verus!
