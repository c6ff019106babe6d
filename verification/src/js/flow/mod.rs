//! Flow syntax: token tests for Flow-only constructs, `record` expressions,
//! type annotations, type parameters, and Flow declarations.

use vstd::prelude::*;

use crate::js::expressions::{Expr, Node};
use crate::js::JSParserImpl;
use crate::lexer::LexerState;
use crate::token_kinds::{is_reserved_word, spec_is_reserved_word, TokenKind};

pub mod declarations;
pub mod function_types;
pub mod match_;
pub mod object_types;
pub mod params;
pub mod types;

verus! {

/// Whether a token of the given kind (if any) can follow the contextual
/// variance keyword `readonly` or `writeonly` when the keyword is a variance
/// annotation rather than a property name: a reserved word, a name, a
/// literal key, or a computed key.
pub open spec fn spec_can_follow_variance_keyword_flow(opt_token_kind: Option<TokenKind>) -> bool {
    match opt_token_kind {
        None => false,
        Some(kind) => spec_is_reserved_word(kind) || kind == TokenKind::identifier || kind
            == TokenKind::private_identifier || kind == TokenKind::string_literal || kind
            == TokenKind::numeric_literal || kind == TokenKind::bigint_literal || kind
            == TokenKind::l_square,
    }
}

/// Whether a token of the given kind (if any) can follow the contextual
/// variance keyword `readonly` or `writeonly` when the keyword is a variance
/// annotation rather than a property name.
pub fn can_follow_variance_keyword_flow(opt_token_kind: Option<TokenKind>) -> (r: bool)
    ensures
        r == spec_can_follow_variance_keyword_flow(opt_token_kind),
{
    let kind = match opt_token_kind {
        None => return false,
        Some(kind) => kind,
    };
    if is_reserved_word(kind) {
        return true;
    }
    match kind {
        TokenKind::identifier | TokenKind::private_identifier | TokenKind::string_literal
        | TokenKind::numeric_literal | TokenKind::bigint_literal | TokenKind::l_square => true,
        _ => false,
    }
}

/// Whether `expr` followed by the current token can be the constructor of a
/// `record` expression: the current token is `{` on the same line, and
/// `expr` is a member expression or a name that does not start with a
/// lowercase ASCII letter.
pub open spec fn spec_starts_record_expression(s: LexerState, expr: Expr) -> bool {
    &&& s.kind == TokenKind::l_brace
    &&& !s.cur().new_line_before
    &&& match expr.node {
        Node::Identifier(id) => {
            &&& id < s.tokens.len()
            &&& s.tokens[id as int].value@.len() > 0
            &&& !(97 <= s.tokens[id as int].value@[0] <= 122)
        },
        Node::MemberExpression { .. } => true,
        _ => false,
    }
}

impl JSParserImpl {
    /// Whether `expr` followed by the current `{` forms a `record`
    /// expression.
    pub fn check_record_expression_flow(&self, expr: &Expr) -> (r: bool)
        ensures
            r == spec_starts_record_expression(self.lexer@, *expr),
    {
        if !self.check(TokenKind::l_brace) || self.lexer.is_new_line_before_current_token() {
            return false;
        }
        match &expr.node {
            Node::Identifier(id) => {
                let id = *id;
                match self.lexer.kind_at(id) {
                    None => false,
                    Some(_) => {
                        let name = &self.lexer.token_at(id).value;
                        if name.len() == 0 || (name[0] >= 97u8 && name[0] <= 122u8) {
                            return false;
                        }
                        true
                    },
                }
            },
            Node::MemberExpression { .. } => true,
            _ => false,
        }
    }
}

} // verus!
