//! A verified core of a JavaScript/Flow parser: the token cursor, the
//! token-level decisions the parser makes, binary-expression parsing by
//! operator precedence, Flow type annotations (function, object and generic
//! types) and type parameters, Flow declarations (`enum`, type aliases,
//! interfaces, records, `declare` statements and `declare export`), and
//! Flow match patterns.
//!
//! Expressions: primary expressions (names, literals, `this`, `()`, and a
//! postfix expression in parentheses, whose count of parentheses is kept),
//! member accesses `.name`, prefix and postfix operators, binary
//! expressions by precedence, conditional expressions, assignment chains
//! grouped to the right, and comma-separated sequences; and the reading of
//! a cover expression as arrow function parameters.
//!
//! What this library does not parse it reports as unsupported, with an
//! `ErrorKind::Unsupported` diagnostic naming the form, and gives no
//! result: parentheses around anything but a postfix expression, array,
//! object and template literals, function, class and `new` expressions,
//! computed members, calls, optional chains and tagged templates, arrow
//! functions, `yield`, rest elements in a list; function, parenthesized and object types, tuple,
//! `typeof`, `keyof`, interface and conditional types, and negative
//! literal types where a type annotation starts (function and object types
//! have their own entry points); computed property keys; the declared
//! predicate `%checks(expr)`; `component` and `hook` declarations,
//! statements in a `declare module` body, `declare namespace` and
//! `declare component`; record property initializers and record methods.
//! Class elements are covered by the rules their methods and properties
//! must follow (`check_class_method`, `check_class_property`), given the
//! parts already read.

pub mod token_kinds;
pub mod lexer;
pub mod js;
