//! The kinds of tokens that the lexer hands to the parser, with the
//! classification tables the parser consults: which kinds are reserved words
//! and the precedence of each binary operator.

use vstd::prelude::*;

verus! {

/// The kind of a lexical token.
///
/// Punctuators are named after their spelling (`ampamp` is `&&`), reserved
/// words carry the `rw_` prefix, and `as_operator` is the kind an `as`
/// identifier is converted to when it is used as a binary operator.
#[allow(non_camel_case_types)]
#[derive(Clone, Copy, Debug, PartialEq, Eq, Structural)]
pub enum TokenKind {
    none,
    eof,
    // Literals and names.
    identifier,
    private_identifier,
    string_literal,
    numeric_literal,
    bigint_literal,
    regexp_literal,
    no_substitution_template,
    template_head,
    template_middle,
    template_tail,
    // Brackets and separators.
    l_paren,
    r_paren,
    l_brace,
    r_brace,
    l_square,
    r_square,
    l_bracepipe,
    piper_brace,
    comma,
    semi,
    colon,
    period,
    dotdotdot,
    question,
    questiondot,
    at,
    equalgreater,
    // Unary-only operators.
    exclaim,
    tilde,
    plusplus,
    minusminus,
    // Binary operators.
    questionquestion,
    pipepipe,
    ampamp,
    pipe,
    caret,
    amp,
    equalequal,
    exclaimequal,
    equalequalequal,
    exclaimequalequal,
    less,
    greater,
    lessequal,
    greaterequal,
    lessless,
    greatergreater,
    greatergreatergreater,
    plus,
    minus,
    star,
    slash,
    percent,
    starstar,
    // Assignment operators.
    equal,
    starequal,
    slashequal,
    percentequal,
    plusequal,
    minusequal,
    lesslessequal,
    greatergreaterequal,
    greatergreatergreaterequal,
    starstarequal,
    pipepipeequal,
    ampampequal,
    questionquestionequal,
    ampequal,
    caretequal,
    pipeequal,
    // Identifier used as an operator.
    as_operator,
    // Reserved words.
    rw_break,
    rw_case,
    rw_catch,
    rw_class,
    rw_const,
    rw_continue,
    rw_debugger,
    rw_default,
    rw_delete,
    rw_do,
    rw_else,
    rw_enum,
    rw_export,
    rw_extends,
    rw_false,
    rw_finally,
    rw_for,
    rw_function,
    rw_if,
    rw_import,
    rw_in,
    rw_instanceof,
    rw_new,
    rw_null,
    rw_return,
    rw_super,
    rw_switch,
    rw_this,
    rw_throw,
    rw_true,
    rw_try,
    rw_typeof,
    rw_var,
    rw_void,
    rw_while,
    rw_with,
    rw_implements,
    rw_interface,
    rw_package,
    rw_private,
    rw_protected,
    rw_public,
    rw_static,
    rw_yield,
}

/// Whether `kind` is one of the reserved words.
pub open spec fn spec_is_reserved_word(kind: TokenKind) -> bool {
    match kind {
        TokenKind::rw_break | TokenKind::rw_case | TokenKind::rw_catch | TokenKind::rw_class
        | TokenKind::rw_const | TokenKind::rw_continue | TokenKind::rw_debugger
        | TokenKind::rw_default | TokenKind::rw_delete | TokenKind::rw_do | TokenKind::rw_else
        | TokenKind::rw_enum | TokenKind::rw_export | TokenKind::rw_extends
        | TokenKind::rw_false | TokenKind::rw_finally | TokenKind::rw_for
        | TokenKind::rw_function | TokenKind::rw_if | TokenKind::rw_import | TokenKind::rw_in
        | TokenKind::rw_instanceof | TokenKind::rw_new | TokenKind::rw_null
        | TokenKind::rw_return | TokenKind::rw_super | TokenKind::rw_switch
        | TokenKind::rw_this | TokenKind::rw_throw | TokenKind::rw_true | TokenKind::rw_try
        | TokenKind::rw_typeof | TokenKind::rw_var | TokenKind::rw_void | TokenKind::rw_while
        | TokenKind::rw_with | TokenKind::rw_implements | TokenKind::rw_interface
        | TokenKind::rw_package | TokenKind::rw_private | TokenKind::rw_protected
        | TokenKind::rw_public | TokenKind::rw_static | TokenKind::rw_yield => true,
        _ => false,
    }
}

/// Whether `kind` is one of the reserved words.
pub fn is_reserved_word(kind: TokenKind) -> (r: bool)
    ensures
        r == spec_is_reserved_word(kind),
{
    match kind {
        TokenKind::rw_break | TokenKind::rw_case | TokenKind::rw_catch | TokenKind::rw_class
        | TokenKind::rw_const | TokenKind::rw_continue | TokenKind::rw_debugger
        | TokenKind::rw_default | TokenKind::rw_delete | TokenKind::rw_do | TokenKind::rw_else
        | TokenKind::rw_enum | TokenKind::rw_export | TokenKind::rw_extends
        | TokenKind::rw_false | TokenKind::rw_finally | TokenKind::rw_for
        | TokenKind::rw_function | TokenKind::rw_if | TokenKind::rw_import | TokenKind::rw_in
        | TokenKind::rw_instanceof | TokenKind::rw_new | TokenKind::rw_null
        | TokenKind::rw_return | TokenKind::rw_super | TokenKind::rw_switch
        | TokenKind::rw_this | TokenKind::rw_throw | TokenKind::rw_true | TokenKind::rw_try
        | TokenKind::rw_typeof | TokenKind::rw_var | TokenKind::rw_void | TokenKind::rw_while
        | TokenKind::rw_with | TokenKind::rw_implements | TokenKind::rw_interface
        | TokenKind::rw_package | TokenKind::rw_private | TokenKind::rw_protected
        | TokenKind::rw_public | TokenKind::rw_static | TokenKind::rw_yield => true,
        _ => false,
    }
}

/// The precedence of a punctuator binary operator, or 0 for any other kind.
/// Higher numbers bind tighter; `??` binds loosest and `**` tightest.
pub open spec fn spec_binop_prec(kind: TokenKind) -> u32 {
    match kind {
        TokenKind::questionquestion => 1,
        TokenKind::pipepipe => 2,
        TokenKind::ampamp => 3,
        TokenKind::pipe => 4,
        TokenKind::caret => 5,
        TokenKind::amp => 6,
        TokenKind::equalequal | TokenKind::exclaimequal | TokenKind::equalequalequal
        | TokenKind::exclaimequalequal => 7,
        TokenKind::less | TokenKind::greater | TokenKind::lessequal
        | TokenKind::greaterequal => 8,
        TokenKind::lessless | TokenKind::greatergreater | TokenKind::greatergreatergreater => 9,
        TokenKind::plus | TokenKind::minus => 10,
        TokenKind::star | TokenKind::slash | TokenKind::percent => 11,
        TokenKind::starstar => 12,
        _ => 0,
    }
}

/// The precedence of a punctuator binary operator, `None` for any other kind.
pub fn binop_precedence(kind: TokenKind) -> (r: Option<u32>)
    ensures
        r == (if spec_binop_prec(kind) > 0 { Some(spec_binop_prec(kind)) } else { None::<u32> }),
{
    match kind {
        TokenKind::questionquestion => Some(1),
        TokenKind::pipepipe => Some(2),
        TokenKind::ampamp => Some(3),
        TokenKind::pipe => Some(4),
        TokenKind::caret => Some(5),
        TokenKind::amp => Some(6),
        TokenKind::equalequal | TokenKind::exclaimequal | TokenKind::equalequalequal
        | TokenKind::exclaimequalequal => Some(7),
        TokenKind::less | TokenKind::greater | TokenKind::lessequal
        | TokenKind::greaterequal => Some(8),
        TokenKind::lessless | TokenKind::greatergreater | TokenKind::greatergreatergreater => Some(9),
        TokenKind::plus | TokenKind::minus => Some(10),
        TokenKind::star | TokenKind::slash | TokenKind::percent => Some(11),
        TokenKind::starstar => Some(12),
        _ => None,
    }
}

} // verus!
