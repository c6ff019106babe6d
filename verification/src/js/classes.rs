//! Class elements: the token tests that decide whether a modifier keyword
//! (`get`, `set`, `async`, `static`, TypeScript accessibility modifiers) is
//! a modifier or the name of the element, and the rules a class method or
//! property must follow once its parts are read.

use vstd::prelude::*;

use crate::js::{ErrorKind, JSParserImpl, ParseError};
use crate::token_kinds::TokenKind;

verus! {

/// The special form of a class element, given by what precedes its name.
#[derive(Clone, Copy, Debug, PartialEq, Eq, Structural)]
pub enum ClassElementSpecial {
    Plain,
    Getter,
    Setter,
    Generator,
    Async,
    AsyncGenerator,
}

/// The kind of a class method.
#[derive(Clone, Copy, Debug, PartialEq, Eq, Structural)]
pub enum MethodKind {
    Method,
    Constructor,
    Getter,
    Setter,
}

/// The facts about a class method that its rules depend on, once its name,
/// parameters and body are read.
#[derive(Clone, Copy, Debug, PartialEq, Eq, Structural)]
pub struct ClassMethodShape {
    pub special: ClassElementSpecial,
    pub is_static: bool,
    pub is_private: bool,
    /// Whether the name is computed `[expr]`.
    pub computed: bool,
    /// Whether the name (a name or a string) is `constructor`.
    pub named_constructor: bool,
    /// Whether the name (a name or a string) is `prototype`.
    pub named_prototype: bool,
    /// The number of formal parameters.
    pub params_len: usize,
    pub has_type_params: bool,
    /// The source range of the method, from its name's start to the end of
    /// its body.
    pub start: usize,
    pub end: usize,
}

/// The kind of the class method `m` and the diagnostics its rules give: a
/// getter must have no parameter, a setter exactly one, and neither type
/// parameters (reported, and the method kept); a static method may not be
/// named `prototype`, a private one `#constructor`, and a constructor may
/// not be a getter, setter, generator or async (reported, and no method).
pub open spec fn spec_class_method(m: ClassMethodShape) -> (Option<MethodKind>, Seq<ParseError>) {
    let at = |k: ErrorKind| ParseError { kind: k, start: m.start, end: m.end };
    let accessor = m.special == ClassElementSpecial::Getter || m.special == ClassElementSpecial::Setter;
    let e1 = if m.special == ClassElementSpecial::Getter && m.params_len != 0 {
        seq![at(ErrorKind::GetterMethodParameters)]
    } else {
        Seq::empty()
    };
    let e2 = if m.special == ClassElementSpecial::Setter && m.params_len != 1 {
        seq![at(ErrorKind::SetterMethodParameters)]
    } else {
        Seq::empty()
    };
    let e3 = if accessor && m.has_type_params {
        seq![at(ErrorKind::AccessorTypeParameters)]
    } else {
        Seq::empty()
    };
    let errs = e1 + e2 + e3;
    let is_constructor = !m.is_static && !m.computed && m.named_constructor;
    if m.is_static && !m.is_private && !m.computed && m.named_prototype {
        (None, errs.push(at(ErrorKind::StaticPrototypeMethod)))
    } else if m.is_private && m.named_constructor {
        (None, errs.push(at(ErrorKind::PrivateConstructorMethod)))
    } else if is_constructor && m.special != ClassElementSpecial::Plain {
        (None, errs.push(at(ErrorKind::SpecialConstructor)))
    } else if is_constructor {
        (Some(MethodKind::Constructor), errs)
    } else if m.special == ClassElementSpecial::Getter {
        (Some(MethodKind::Getter), errs)
    } else if m.special == ClassElementSpecial::Setter {
        (Some(MethodKind::Setter), errs)
    } else {
        (Some(MethodKind::Method), errs)
    }
}

/// The facts about a class property that its rules depend on, once its
/// name is read.
#[derive(Clone, Copy, Debug, PartialEq, Eq, Structural)]
pub struct ClassPropertyShape {
    pub is_private: bool,
    pub is_static: bool,
    /// Whether the name is computed `[expr]`.
    pub computed: bool,
    /// Whether the name (a name or a string) is `constructor`.
    pub named_constructor: bool,
    /// Whether the name (a name or a string) is `prototype`.
    pub named_prototype: bool,
    /// Whether an accessibility modifier was written.
    pub has_accessibility: bool,
    /// The source range of the name.
    pub start: usize,
    pub end: usize,
    /// The source range of the first token of the element.
    pub mods_start: usize,
    pub mods_end: usize,
}

/// The diagnostics the rules of the class property `c` give: a private
/// property may not be named after the constructor nor carry an
/// accessibility modifier; one marked `static` that is neither private nor
/// computed may not be named `prototype`.
pub open spec fn spec_class_property_errors(c: ClassPropertyShape) -> Seq<ParseError> {
    if c.is_private {
        (if c.named_constructor {
            seq![ParseError { kind: ErrorKind::PrivateConstructorProperty, start: c.start, end: c.end }]
        } else {
            Seq::empty()
        }) + (if c.has_accessibility {
            seq![ParseError { kind: ErrorKind::PrivateAccessibility, start: c.mods_start, end: c.mods_end }]
        } else {
            Seq::empty()
        })
    } else if c.is_static && !c.computed && c.named_prototype {
        seq![ParseError { kind: ErrorKind::StaticPrototypeProperty, start: c.start, end: c.end }]
    } else {
        Seq::empty()
    }
}

/// Whether `kind`, following `get` or `set`, shows that the keyword was
/// the element's name rather than an accessor specifier.
pub open spec fn spec_follows_accessor_name(kind: TokenKind) -> bool {
    kind == TokenKind::less || kind == TokenKind::l_paren || kind == TokenKind::r_brace
        || kind == TokenKind::equal || kind == TokenKind::colon || kind == TokenKind::semi
        || kind == TokenKind::star
}

/// Whether `kind`, following `async`, shows that `async` was the element's
/// name rather than a modifier (unlike after `get`/`set`, `*` does not: it
/// makes an async generator).
pub open spec fn spec_follows_async_name(kind: TokenKind) -> bool {
    kind == TokenKind::less || kind == TokenKind::l_paren || kind == TokenKind::r_brace
        || kind == TokenKind::equal || kind == TokenKind::colon || kind == TokenKind::semi
}

impl JSParserImpl {
    /// Whether the current token, following a `get`/`set` keyword, shows
    /// that the keyword was the element's name.
    pub fn check_class_element_after_accessor_name(&self) -> (r: bool)
        ensures
            r == spec_follows_accessor_name(self.lexer@.kind),
    {
        let k = self.cur_kind();
        k == TokenKind::less || k == TokenKind::l_paren || k == TokenKind::r_brace || k
            == TokenKind::equal || k == TokenKind::colon || k == TokenKind::semi || k
            == TokenKind::star
    }

    /// Whether the current token, following an `async` keyword, shows that
    /// `async` was the element's name.
    pub fn check_class_element_after_async_name(&self) -> (r: bool)
        ensures
            r == spec_follows_async_name(self.lexer@.kind),
    {
        let k = self.cur_kind();
        k == TokenKind::less || k == TokenKind::l_paren || k == TokenKind::r_brace || k
            == TokenKind::equal || k == TokenKind::colon || k == TokenKind::semi
    }

    /// Whether the current token, following `static`, shows that `static`
    /// was the element's name: `static() {}`, `static = 1`, `static }`,
    /// `static;`, and with types enabled `static<T>() {}` and `static: T`.
    pub fn static_is_property_name(&self) -> (r: bool)
        ensures
            r == (self.lexer@.kind == TokenKind::l_paren || self.lexer@.kind == TokenKind::equal
                || self.lexer@.kind == TokenKind::r_brace || self.lexer@.kind == TokenKind::semi
                || (self.options.spec_parse_types() && (self.lexer@.kind == TokenKind::less
                || self.lexer@.kind == TokenKind::colon))),
    {
        if self.check_n4(TokenKind::l_paren, TokenKind::equal, TokenKind::r_brace, TokenKind::semi) {
            return true;
        }
        if self.parse_types() && self.check2(TokenKind::less, TokenKind::colon) {
            return true;
        }
        false
    }
}

/// Whether a token of the given kind (if any) can follow a TypeScript class
/// member modifier that is used as a modifier: a name or another modifier.
pub open spec fn spec_can_follow_modifier_ts(opt_token_kind: Option<TokenKind>) -> bool {
    match opt_token_kind {
        Some(TokenKind::identifier) | Some(TokenKind::private_identifier)
        | Some(TokenKind::rw_private) | Some(TokenKind::rw_protected)
        | Some(TokenKind::rw_public) | Some(TokenKind::rw_static) => true,
        _ => false,
    }
}

/// Whether a token of the given kind (if any) can follow a TypeScript class
/// member modifier that is used as a modifier: a name or another modifier.
pub fn can_follow_modifier_ts(opt_token_kind: Option<TokenKind>) -> (r: bool)
    ensures
        r == spec_can_follow_modifier_ts(opt_token_kind),
{
    match opt_token_kind {
        Some(TokenKind::identifier) | Some(TokenKind::private_identifier)
        | Some(TokenKind::rw_private) | Some(TokenKind::rw_protected)
        | Some(TokenKind::rw_public) | Some(TokenKind::rw_static) => true,
        _ => false,
    }
}

impl JSParserImpl {
    /// Apply the rules of a class method to the method read as `m`,
    /// reporting what they forbid, and give its kind: `None` where the
    /// method cannot stand (`prototype` marked `static`, a private method
    /// named after the constructor, or a constructor that is a getter,
    /// setter, generator or async).
    pub fn check_class_method(&mut self, m: ClassMethodShape) -> (r: Option<MethodKind>)
        ensures
            ({
                let (kind, errs) = spec_class_method(m);
                &&& r == kind
                &&& final(self).errors@ == old(self).errors@ + errs
                &&& final(self).lexer@ == old(self).lexer@
                &&& final(self).options == old(self).options
            }),
    {
        let accessor = m.special == ClassElementSpecial::Getter || m.special == ClassElementSpecial::Setter;
        if m.special == ClassElementSpecial::Getter && m.params_len != 0 {
            self.error_at(ErrorKind::GetterMethodParameters, m.start, m.end);
        }
        if m.special == ClassElementSpecial::Setter && m.params_len != 1 {
            self.error_at(ErrorKind::SetterMethodParameters, m.start, m.end);
        }
        if accessor && m.has_type_params {
            self.error_at(ErrorKind::AccessorTypeParameters, m.start, m.end);
        }
        let ghost errs = self.errors@.skip(old(self).errors@.len() as int);
        assert(self.errors@ =~= old(self).errors@ + errs);
        let is_constructor = !m.is_static && !m.computed && m.named_constructor;
        let fatal = if m.is_static && !m.is_private && !m.computed && m.named_prototype {
            Some(ErrorKind::StaticPrototypeMethod)
        } else if m.is_private && m.named_constructor {
            Some(ErrorKind::PrivateConstructorMethod)
        } else if is_constructor && m.special != ClassElementSpecial::Plain {
            Some(ErrorKind::SpecialConstructor)
        } else {
            None
        };
        if let Some(k) = fatal {
            self.error_at(k, m.start, m.end);
            assert(self.errors@ =~= old(self).errors@ + errs.push(self.errors@.last()));
            return None;
        }
        if is_constructor {
            Some(MethodKind::Constructor)
        } else if m.special == ClassElementSpecial::Getter {
            Some(MethodKind::Getter)
        } else if m.special == ClassElementSpecial::Setter {
            Some(MethodKind::Setter)
        } else {
            Some(MethodKind::Method)
        }
    }

    /// Report what the rules of the class property `c` forbid, once its
    /// name is read: a private property named after the constructor or with
    /// an accessibility modifier, and one marked `static` (neither private
    /// nor computed) named `prototype`.
    pub fn check_class_property(&mut self, c: ClassPropertyShape)
        ensures
            final(self).errors@ == old(self).errors@ + spec_class_property_errors(c),
            final(self).lexer@ == old(self).lexer@,
            final(self).options == old(self).options,
    {
        if c.is_private {
            if c.named_constructor {
                self.error_at(ErrorKind::PrivateConstructorProperty, c.start, c.end);
            }
            if c.has_accessibility {
                self.error_at(ErrorKind::PrivateAccessibility, c.mods_start, c.mods_end);
            }
        } else if c.is_static && !c.computed && c.named_prototype {
            self.error_at(ErrorKind::StaticPrototypeProperty, c.start, c.end);
        }
        assert(self.errors@ =~= old(self).errors@ + spec_class_property_errors(c));
    }
}

/// Law: a class method is the constructor exactly when it is neither
/// static nor private, its name is `constructor` written as a name or a
/// string (never a computed key), and it is a plain method; so a method
/// with a computed name is never the constructor, and one that is not
/// rejected takes its kind from its getter/setter form alone. A method is
/// rejected exactly when it is a static `prototype` with a plain name, a
/// private method named `constructor`, or a constructor that is a getter,
/// setter, generator or async.
pub proof fn law_constructor_only_by_plain_name(m: ClassMethodShape)
    ensures
        spec_class_method(m).0 == Some(MethodKind::Constructor) <==> (!m.is_static && !m.is_private
            && !m.computed && m.named_constructor && m.special == ClassElementSpecial::Plain),
        m.computed ==> spec_class_method(m).0 != Some(MethodKind::Constructor),
        spec_class_method(m).0 is None <==> ((m.is_static && !m.is_private && !m.computed
            && m.named_prototype) || (m.is_private && m.named_constructor) || (!m.is_static
            && !m.computed && m.named_constructor && m.special != ClassElementSpecial::Plain)),
        (m.computed && !(m.is_private && m.named_constructor)) ==> spec_class_method(m).0 == Some(
            if m.special == ClassElementSpecial::Getter {
                MethodKind::Getter
            } else if m.special == ClassElementSpecial::Setter {
                MethodKind::Setter
            } else {
                MethodKind::Method
            }),
{
}

} // verus!
