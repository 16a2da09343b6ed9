//! What an expansion is: how a literal of each shape is read, and the
//! tokens that a literal expands to once it is read.
//!
//! The literal is read from the token trees of the invocation as they
//! stand. An invisible group, such as the compiler puts around the tokens
//! of a macro variable that another macro substituted, is one token tree
//! here and is not looked into: a literal whose name, parentheses, braces,
//! field names, colons or commas arrive inside one is refused like any
//! other token out of place. Inside an expression such a group is the
//! business of the parser of expressions, which takes it for the
//! expression that it holds.

use crate::error::{ErrorKind, Refusal, Shape};
use crate::input::is_name;
use crate::names::{param_name, struct_name_text};
use crate::syntax::{parsed_expr_prefix, parsed_exprs};
use crate::tokens::{content_of, kind_of, Delim, Tok, TokenKind};
use vstd::prelude::*;

verus! {

/// One field of a named literal: the tokens of its name, and those of the
/// expression that gives its value unless the field stands for a variable
/// of the same name.
pub struct Field {
    pub name: Seq<Tok>,
    pub value: Option<Seq<Tok>>,
}

/// The identifier with the text `text`.
pub open spec fn word(text: Seq<char>) -> Tok {
    Tok::Ident(text)
}

/// The punctuation character `ch`, standing alone.
pub open spec fn op(ch: char) -> Tok {
    Tok::Punct(ch, false)
}

/// The keyword `struct`.
pub open spec fn struct_keyword() -> Seq<char> {
    seq!['s', 't', 'r', 'u', 'c', 't']
}

/// True when the literal begins with a name for its type.
pub open spec fn leads_with_name(tokens: Seq<Tok>) -> bool {
    tokens.len() > 0 && is_name(tokens[0])
}

/// The number of tokens that the name of the type takes: one or none.
pub open spec fn name_len(tokens: Seq<Tok>) -> nat {
    if leads_with_name(tokens) {
        1
    } else {
        0
    }
}

/// The tokens behind the name of the type.
pub open spec fn body_of(tokens: Seq<Tok>) -> Seq<Tok> {
    tokens.skip(name_len(tokens) as int)
}

/// The name of the type: the one that the literal begins with, or else the
/// made-up name with the suffix `fresh`.
pub open spec fn name_of(tokens: Seq<Tok>, fresh: Seq<char>) -> Seq<Tok> {
    if leads_with_name(tokens) {
        seq![tokens[0]]
    } else {
        seq![word(struct_name_text(fresh))]
    }
}

/// True when `tokens` begin with a group in the delimiters `delim`.
pub open spec fn begins_with_group(tokens: Seq<Tok>, delim: Delim) -> bool {
    tokens.len() > 0 && kind_of(tokens[0]) == TokenKind::Group(delim)
}

/// The shape of a literal, decided by what follows the name of the type:
/// parentheses, braces, or neither.
pub open spec fn shape_of(tokens: Seq<Tok>) -> Shape {
    if begins_with_group(body_of(tokens), Delim::Paren) {
        Shape::Tuple
    } else if begins_with_group(body_of(tokens), Delim::Brace) {
        Shape::Named
    } else {
        Shape::Unit
    }
}

/// The token sequences `items` in their order, a comma behind each.
pub open spec fn comma_terminated(items: Seq<Seq<Tok>>) -> Seq<Tok>
    decreases items.len(),
{
    if items.len() == 0 {
        Seq::empty()
    } else {
        comma_terminated(items.drop_last()) + items.last() + seq![op(',')]
    }
}

/// A list with one more item is the list, the item and a comma.
pub proof fn lemma_comma_terminated_push(items: Seq<Seq<Tok>>, item: Seq<Tok>)
    ensures
        comma_terminated(items.push(item)) == comma_terminated(items) + item + seq![op(',')],
{
    assert(items.push(item).drop_last() =~= items);
}

/// The placeholder type parameters of `n` positions: `T0`, `T1`, and so on.
pub open spec fn params(n: nat) -> Seq<Seq<Tok>> {
    Seq::new(n, |i: int| seq![word(param_name(i as nat))])
}

/// What declares the field at position `i`: its name, a colon and the
/// placeholder of its position for a type.
pub open spec fn field_decl(field: Field, i: nat) -> Seq<Tok> {
    field.name + seq![op(':'), word(param_name(i))]
}

/// The declarations of the fields `fields`, in their order.
pub open spec fn field_decls(fields: Seq<Field>) -> Seq<Seq<Tok>> {
    Seq::new(fields.len(), |i: int| field_decl(fields[i], i as nat))
}

/// What binds one field: its name alone, or its name, a colon and its
/// expression.
pub open spec fn field_bind(field: Field) -> Seq<Tok> {
    match field.value {
        Some(expr) => field.name + seq![op(':')] + expr,
        None => field.name,
    }
}

/// The bindings of the fields `fields`, in their order.
pub open spec fn field_binds(fields: Seq<Field>) -> Seq<Seq<Tok>> {
    Seq::new(fields.len(), |i: int| field_bind(fields[i]))
}

/// The block `{ declaration value }` that every expansion is.
pub open spec fn block(declaration: Seq<Tok>, value: Seq<Tok>) -> Seq<Tok> {
    seq![Tok::Group(Delim::Brace, declaration + value)]
}

/// `struct Name;`
pub open spec fn unit_declaration(name: Seq<Tok>) -> Seq<Tok> {
    seq![word(struct_keyword())] + name + seq![op(';')]
}

/// `struct Name<T0, T1,>(T0, T1,);`
pub open spec fn tuple_declaration(name: Seq<Tok>, arity: nat) -> Seq<Tok> {
    seq![word(struct_keyword())] + name + seq![op('<')] + comma_terminated(params(arity))
        + seq![op('>'), Tok::Group(Delim::Paren, comma_terminated(params(arity))), op(';')]
}

/// `Name(e0, e1,)`
pub open spec fn tuple_value(name: Seq<Tok>, exprs: Seq<Seq<Tok>>) -> Seq<Tok> {
    name + seq![Tok::Group(Delim::Paren, comma_terminated(exprs))]
}

/// `struct Name<T0, T1,> { f0: T0, f1: T1, }`
pub open spec fn named_declaration(name: Seq<Tok>, fields: Seq<Field>) -> Seq<Tok> {
    seq![word(struct_keyword())] + name + seq![op('<')] + comma_terminated(
        params(fields.len()),
    ) + seq![op('>'), Tok::Group(Delim::Brace, comma_terminated(field_decls(fields)))]
}

/// `Name { f0: e0, f1, }`
pub open spec fn named_value(name: Seq<Tok>, fields: Seq<Field>) -> Seq<Tok> {
    name + seq![Tok::Group(Delim::Brace, comma_terminated(field_binds(fields)))]
}

/// The token that `tokens` begin with, if there is one.
pub open spec fn first_of(tokens: Seq<Tok>) -> Seq<Tok> {
    if tokens.len() > 0 {
        seq![tokens[0]]
    } else {
        Seq::empty()
    }
}

/// The refusal for the reason `kind`, reported at `at`.
pub open spec fn refused<T>(kind: ErrorKind, at: Seq<Tok>) -> Result<T, Refusal> {
    Err(Refusal { kind, at })
}

/// The field that `tokens` begin with, and the tokens behind it. A colon
/// in the second place announces an expression, which is read as far as it
/// goes; without the colon the field is its name alone. What stands in the
/// place of the name and is none is reported where it stands.
pub open spec fn field_head(tokens: Seq<Tok>) -> Result<(Field, Seq<Tok>), Refusal> {
    if tokens.len() == 0 || !is_name(tokens[0]) {
        refused(ErrorKind::ExpectedIdentifier, first_of(tokens))
    } else if tokens.len() >= 2 && kind_of(tokens[1]) == TokenKind::Punct(':') {
        match parsed_expr_prefix(tokens.skip(2)) {
            None => refused(ErrorKind::InvalidExpression, Seq::empty()),
            Some((expr, rest)) => if rest.len() < tokens.len() {
                Ok((Field { name: seq![tokens[0]], value: Some(expr) }, rest))
            } else {
                refused(ErrorKind::UnexpectedToken, Seq::empty())
            },
        }
    } else {
        Ok((Field { name: seq![tokens[0]], value: None }, tokens.skip(1)))
    }
}

/// The fields that `tokens` list: fields with a comma between two of them
/// and possibly one behind the last. What follows a field and is no comma
/// is reported where it stands.
pub open spec fn parse_fields(tokens: Seq<Tok>) -> Result<Seq<Field>, Refusal>
    decreases tokens.len(),
{
    if tokens.len() == 0 {
        Ok(Seq::empty())
    } else {
        match field_head(tokens) {
            Err(refusal) => Err(refusal),
            Ok((field, rest)) => if rest.len() == 0 {
                Ok(seq![field])
            } else if kind_of(rest[0]) != TokenKind::Punct(',') {
                refused(ErrorKind::ExpectedComma, first_of(rest))
            } else {
                match parse_fields(rest.skip(1)) {
                    Err(refusal) => Err(refusal),
                    Ok(more) => Ok(seq![field] + more),
                }
            },
        }
    }
}

/// The fields of a literal, by its shape.
pub enum Body {
    /// No fields.
    Unit,
    /// The expressions of the positions, in their order.
    Tuple(Seq<Seq<Tok>>),
    /// The fields, in their order.
    Named(Seq<Field>),
}

/// A literal as it was read: the name that it gives its type, if it gives
/// one, and its fields.
pub struct Literal {
    pub explicit_name: Option<Tok>,
    pub body: Body,
}

impl Literal {
    /// The shape of the literal.
    pub open spec fn shape(self) -> Shape {
        match self.body {
            Body::Unit => Shape::Unit,
            Body::Tuple(_) => Shape::Tuple,
            Body::Named(_) => Shape::Named,
        }
    }

    /// The number of fields.
    pub open spec fn arity(self) -> nat {
        match self.body {
            Body::Unit => 0,
            Body::Tuple(exprs) => exprs.len(),
            Body::Named(fields) => fields.len(),
        }
    }

    /// True of a literal that is a unit or has at least one field.
    pub open spec fn wf(self) -> bool {
        self.shape() != Shape::Unit ==> self.arity() > 0
    }

    /// The name of the type: the one that the literal gives, or else the
    /// made-up name with the suffix `fresh`.
    pub open spec fn name(self, fresh: Seq<char>) -> Seq<Tok> {
        match self.explicit_name {
            Some(name) => seq![name],
            None => seq![word(struct_name_text(fresh))],
        }
    }

    /// The block that the literal expands to.
    pub open spec fn emitted(self, fresh: Seq<char>) -> Seq<Tok> {
        let name = self.name(fresh);
        match self.body {
            Body::Unit => block(unit_declaration(name), name),
            Body::Tuple(exprs) => block(
                tuple_declaration(name, exprs.len()),
                tuple_value(name, exprs),
            ),
            Body::Named(fields) => block(
                named_declaration(name, fields),
                named_value(name, fields),
            ),
        }
    }
}

/// The name that the literal gives its type, if it gives one.
pub open spec fn explicit_name(tokens: Seq<Tok>) -> Option<Tok> {
    if leads_with_name(tokens) {
        Some(tokens[0])
    } else {
        None
    }
}

/// A unit literal as it is read: the name of the type, if any, and nothing
/// behind it. What stands behind it is reported where it stands.
pub open spec fn describe_unit(tokens: Seq<Tok>) -> Result<Literal, Refusal> {
    let body = body_of(tokens);
    if body.len() > 0 {
        refused(ErrorKind::UnexpectedToken, first_of(body))
    } else {
        Ok(Literal { explicit_name: explicit_name(tokens), body: Body::Unit })
    }
}

/// A tuple literal as it is read: the name of the type, if any, then the
/// expressions in parentheses, of which there is at least one, and nothing
/// behind them. Parentheses with nothing between them are reported at the
/// parentheses, a token in their place or behind them where it stands.
pub open spec fn describe_tuple(tokens: Seq<Tok>) -> Result<Literal, Refusal> {
    let body = body_of(tokens);
    if !begins_with_group(body, Delim::Paren) {
        refused(ErrorKind::ExpectedGroup(Delim::Paren), first_of(body))
    } else if content_of(body[0]).len() == 0 {
        refused(ErrorKind::EmptyArguments(Shape::Tuple), first_of(body))
    } else {
        match parsed_exprs(content_of(body[0])) {
            None => refused(ErrorKind::InvalidExpression, Seq::empty()),
            Some(exprs) => if exprs.len() == 0 {
                refused(ErrorKind::EmptyArguments(Shape::Tuple), first_of(body))
            } else if body.len() > 1 {
                refused(ErrorKind::UnexpectedToken, first_of(body.skip(1)))
            } else {
                Ok(Literal { explicit_name: explicit_name(tokens), body: Body::Tuple(exprs) })
            },
        }
    }
}

/// A named literal as it is read: the name of the type, if any, then the
/// fields in braces, of which there is at least one, and nothing behind
/// them. Braces with nothing between them are reported at the call site, a
/// token in their place or behind them where it stands.
pub open spec fn describe_named(tokens: Seq<Tok>) -> Result<Literal, Refusal> {
    let body = body_of(tokens);
    if !begins_with_group(body, Delim::Brace) {
        refused(ErrorKind::ExpectedGroup(Delim::Brace), first_of(body))
    } else {
        match parse_fields(content_of(body[0])) {
            Err(refusal) => Err(refusal),
            Ok(fields) => if fields.len() == 0 {
                refused(ErrorKind::EmptyArguments(Shape::Named), Seq::empty())
            } else if body.len() > 1 {
                refused(ErrorKind::UnexpectedToken, first_of(body.skip(1)))
            } else {
                Ok(Literal { explicit_name: explicit_name(tokens), body: Body::Named(fields) })
            },
        }
    }
}

/// A literal as it is read, by its shape.
pub open spec fn describe(tokens: Seq<Tok>) -> Result<Literal, Refusal> {
    match shape_of(tokens) {
        Shape::Unit => describe_unit(tokens),
        Shape::Tuple => describe_tuple(tokens),
        Shape::Named => describe_named(tokens),
    }
}

/// The block that a literal expands to once it is read, or the refusal to
/// read it.
pub open spec fn emit_if_read(
    read: Result<Literal, Refusal>,
    fresh: Seq<char>,
) -> Result<Seq<Tok>, Refusal> {
    match read {
        Ok(literal) => Ok(literal.emitted(fresh)),
        Err(refusal) => Err(refusal),
    }
}

/// The expansion of a unit literal.
pub open spec fn expand_unit(tokens: Seq<Tok>, fresh: Seq<char>) -> Result<Seq<Tok>, Refusal> {
    emit_if_read(describe_unit(tokens), fresh)
}

/// The expansion of a tuple literal.
pub open spec fn expand_tuple(tokens: Seq<Tok>, fresh: Seq<char>) -> Result<Seq<Tok>, Refusal> {
    emit_if_read(describe_tuple(tokens), fresh)
}

/// The expansion of a named literal.
pub open spec fn expand_named(tokens: Seq<Tok>, fresh: Seq<char>) -> Result<Seq<Tok>, Refusal> {
    emit_if_read(describe_named(tokens), fresh)
}

/// The expansion of a literal: it is read, and what was read is emitted.
pub open spec fn expansion(tokens: Seq<Tok>, fresh: Seq<char>) -> Result<Seq<Tok>, Refusal> {
    emit_if_read(describe(tokens), fresh)
}

} // verus!
