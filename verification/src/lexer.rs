//! The token cursor the parser reads from.
//!
//! The lexer is handed the whole token sequence of a source text, which ends
//! with an `eof` token, and keeps a position in it. Like a real lexer it holds
//! one *current* token whose kind the parser may rewrite in place (an `as`
//! identifier becoming the `as` operator); that rewrite lasts until the
//! cursor moves.

use vstd::prelude::*;

use crate::token_kinds::TokenKind;

verus! {

/// One lexical token.
pub struct Token {
    /// The token's kind.
    pub kind: TokenKind,
    /// For an identifier, its name with escapes decoded; for a string
    /// literal, its value; for a numeric or bigint literal, its source text.
    pub value: Vec<u8>,
    /// Byte offset of the first character of the token's source text.
    pub start: usize,
    /// Byte offset one past the last character of the token's source text.
    pub end: usize,
    /// Whether a line terminator separates this token from the previous one.
    pub new_line_before: bool,
}

/// A saved cursor position, to return to after looking ahead.
pub struct SavePoint {
    pos: usize,
}

impl SavePoint {
    /// The saved position.
    pub closed spec fn pos(&self) -> int {
        self.pos as int
    }
}

/// The position after `p` in `toks`: the next one, or `p` itself when it is
/// the last.
pub open spec fn step(toks: Seq<Token>, p: int) -> int {
    if p + 1 < toks.len() {
        p + 1
    } else {
        p
    }
}

/// Whether the token at `p` is the identifier `name`.
pub open spec fn is_name_at(toks: Seq<Token>, p: int, name: Seq<u8>) -> bool {
    toks[p].kind == TokenKind::identifier && toks[p].value@ == name
}

/// The abstract state of the lexer: the token sequence, the position of the
/// current token, and the (possibly rewritten) kind of the current token.
pub ghost struct LexerState {
    pub tokens: Seq<Token>,
    pub pos: int,
    pub kind: TokenKind,
}

impl LexerState {
    /// The current token.
    pub open spec fn cur(self) -> Token {
        self.tokens[self.pos]
    }

    /// The position the cursor moves to when it advances: the next token, or
    /// the last one (`eof`) when already there.
    pub open spec fn next_pos(self) -> int {
        if self.pos < self.tokens.len() - 1 {
            self.pos + 1
        } else {
            self.pos
        }
    }

    /// The state after advancing to position `p`.
    pub open spec fn at(self, p: int) -> LexerState {
        LexerState { tokens: self.tokens, pos: p, kind: self.tokens[p].kind }
    }

    /// The kind of the token after the current one, provided no line
    /// terminator stands between them; `None` otherwise.
    pub open spec fn lookahead1(self) -> Option<TokenKind> {
        if self.pos < self.tokens.len() - 1 {
            if self.tokens[self.pos + 1].new_line_before {
                None
            } else {
                Some(self.tokens[self.pos + 1].kind)
            }
        } else {
            Some(TokenKind::eof)
        }
    }

    /// Whether the current kind is the current token's own (not rewritten).
    pub open spec fn is_fresh(self) -> bool {
        self.kind == self.cur().kind
    }

    /// Whether the current token is an identifier whose decoded name is `name`.
    pub open spec fn is_name(self, name: Seq<u8>) -> bool {
        self.kind == TokenKind::identifier && self.cur().value@ == name
    }

    /// Whether the current token is an identifier spelled `name` in the
    /// source with no escape sequences (its source text is exactly as long
    /// as its name).
    pub open spec fn is_unescaped_name(self, name: Seq<u8>) -> bool {
        self.is_name(name) && self.cur().end - self.cur().start == name.len()
    }

    /// Well-formedness: a nonempty token sequence ending in `eof`, a position
    /// inside it, and a current kind that is the token's own or the `as`
    /// operator rewritten from an identifier.
    pub open spec fn wf(self) -> bool {
        &&& self.tokens.len() > 0
        &&& self.tokens.last().kind == TokenKind::eof
        &&& 0 <= self.pos < self.tokens.len()
        &&& (self.kind == self.cur().kind || (self.cur().kind == TokenKind::identifier
            && self.kind == TokenKind::as_operator))
    }
}

/// The token cursor.
pub struct JSLexer {
    tokens: Vec<Token>,
    pos: usize,
    /// Whether the current identifier has been rewritten to the `as` operator.
    as_operator: bool,
}

impl View for JSLexer {
    type V = LexerState;

    closed spec fn view(&self) -> LexerState {
        LexerState {
            tokens: self.tokens@,
            pos: self.pos as int,
            kind: if self.as_operator {
                TokenKind::as_operator
            } else {
                self.tokens@[self.pos as int].kind
            },
        }
    }
}

impl JSLexer {
    /// The lexer's state is always well formed.
    #[verifier::type_invariant]
    pub open spec fn inv(self) -> bool {
        self@.wf()
    }

    /// A lexer at the first of `tokens`, or `None` when `tokens` does not end
    /// with an `eof` token.
    pub fn new(tokens: Vec<Token>) -> (r: Option<JSLexer>)
        ensures
            (tokens@.len() > 0 && tokens@.last().kind == TokenKind::eof) <==> r is Some,
            r matches Some(l) ==> l@ == (LexerState { tokens: tokens@, pos: 0, kind: tokens@[0].kind }),
    {
        let n = tokens.len();
        if n == 0 || tokens[n - 1].kind != TokenKind::eof {
            return None;
        }
        Some(JSLexer { tokens, pos: 0, as_operator: false })
    }

    /// The current token.
    pub fn token(&self) -> (r: &Token)
        ensures
            *r == self@.cur(),
    {
        proof { use_type_invariant(self); }
        &self.tokens[self.pos]
    }

    /// The kind of the current token.
    pub fn cur_kind(&self) -> (r: TokenKind)
        ensures
            r == self@.kind,
    {
        proof { use_type_invariant(self); }
        if self.as_operator {
            TokenKind::as_operator
        } else {
            self.tokens[self.pos].kind
        }
    }

    /// Whether a line terminator precedes the current token.
    pub fn is_new_line_before_current_token(&self) -> (r: bool)
        ensures
            r == self@.cur().new_line_before,
    {
        proof { use_type_invariant(self); }
        self.tokens[self.pos].new_line_before
    }

    /// Move to the next token (staying on the final `eof`). Returns the
    /// source range `(start, end)` of the token that was current.
    pub fn advance(&mut self) -> (r: (usize, usize))
        ensures
            final(self)@ == old(self)@.at(old(self)@.next_pos()),
            r == (old(self)@.cur().start, old(self)@.cur().end),
    {
        proof { use_type_invariant(&*self); }
        let r = (self.tokens[self.pos].start, self.tokens[self.pos].end);
        self.as_operator = false;
        if self.pos < self.tokens.len() - 1 {
            self.pos = self.pos + 1;
        }
        r
    }

    /// The kind of the next token when no line terminator precedes it, without
    /// moving the cursor.
    pub fn lookahead1(&self) -> (r: Option<TokenKind>)
        ensures
            r == self@.lookahead1(),
    {
        proof { use_type_invariant(self); }
        if self.pos < self.tokens.len() - 1 {
            if self.tokens[self.pos + 1].new_line_before {
                None
            } else {
                Some(self.tokens[self.pos + 1].kind)
            }
        } else {
            Some(TokenKind::eof)
        }
    }

    /// The token at index `i`.
    pub fn token_at(&self, i: usize) -> (r: &Token)
        requires
            i < self@.tokens.len(),
        ensures
            *r == self@.tokens[i as int],
    {
        &self.tokens[i]
    }

    /// The kind of the token at index `i`, if there is one.
    pub fn kind_at(&self, i: usize) -> (r: Option<TokenKind>)
        ensures
            r == (if i < self@.tokens.len() { Some(self@.tokens[i as int].kind) } else { None }),
    {
        if i < self.tokens.len() {
            Some(self.tokens[i].kind)
        } else {
            None
        }
    }

    /// The number of tokens.
    pub fn token_count(&self) -> (r: usize)
        ensures
            r == self@.tokens.len(),
    {
        self.tokens.len()
    }

    /// The index of the current token.
    pub fn cur_index(&self) -> (r: usize)
        ensures
            r == self@.pos,
    {
        self.pos
    }

    /// Remember the current position.
    pub fn save_point(&self) -> (r: SavePoint)
        ensures
            r.pos() == self@.pos,
    {
        SavePoint { pos: self.pos }
    }

    /// Return to a position saved on this token sequence; the current token
    /// is read afresh.
    pub fn restore(&mut self, sp: SavePoint)
        requires
            0 <= sp.pos() < old(self)@.tokens.len(),
        ensures
            final(self)@ == old(self)@.at(sp.pos()),
    {
        proof { use_type_invariant(&*self); }
        self.as_operator = false;
        self.pos = sp.pos;
    }

    /// Rewrite the kind of the current identifier token to an operator kind
    /// (the `as` operator), until the cursor moves.
    pub fn convert_cur_token_to_as_operator(&mut self)
        requires
            old(self)@.cur().kind == TokenKind::identifier,
        ensures
            final(self)@ == (LexerState { kind: TokenKind::as_operator, ..old(self)@ }),
    {
        proof { use_type_invariant(&*self); }
        self.as_operator = true;
    }

    /// The source range `(start, end)` of the current token.
    pub fn cur_range(&self) -> (r: (usize, usize))
        ensures
            r == (self@.cur().start, self@.cur().end),
    {
        proof { use_type_invariant(self); }
        (self.tokens[self.pos].start, self.tokens[self.pos].end)
    }

    /// The end offset of the token before the current one (0 at the start).
    pub fn prev_token_end(&self) -> (r: usize)
        ensures
            r == (if self@.pos > 0 { self@.tokens[self@.pos - 1].end } else { 0 }),
    {
        proof { use_type_invariant(self); }
        if self.pos > 0 {
            self.tokens[self.pos - 1].end
        } else {
            0
        }
    }
}

} // verus!
