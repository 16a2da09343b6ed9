//! The expansion itself: the shape of a literal is told from its first
//! tokens, the name of its type is taken or made up, and the expander of
//! its shape reads the rest and emits the block.

use crate::emit::{arg_views, emit_named, emit_tuple, emit_unit, Arg};
use crate::error::{ErrorKind, ExpandError, Refusal, Shape};
use crate::input::Tokens;
use crate::model::{
    expand_named, expand_tuple, expand_unit, expansion, field_head, name_len, name_of,
    parse_fields, shape_of, Field,
};
use crate::names::{gen_struct_nm, NameSupply};
use crate::syntax::{parse_expr_list, parse_expr_prefix};
use crate::tokens::{stream_new, stream_view, Delim, Tok, TokenKind};
use proc_macro2::TokenStream;
use vstd::prelude::*;

verus! {

/// An expansion: the block that declares the type and builds the value.
#[derive(Debug)]
pub struct Anym(pub TokenStream);

/// True when `r` is what `expected` asks for: the tokens, or the refusal.
pub open spec fn is_outcome(
    r: Result<TokenStream, ExpandError>,
    expected: Result<Seq<Tok>, Refusal>,
) -> bool {
    match expected {
        Ok(tokens) => r is Ok && stream_view(r->Ok_0) == tokens,
        Err(refusal) => r is Err && r->Err_0.is_refusal(refusal),
    }
}

/// The fields read so far, put before what the rest of the list gives.
pub open spec fn fields_then(
    done: Seq<Field>,
    rest: Result<Seq<Field>, Refusal>,
) -> Result<Seq<Field>, Refusal> {
    match rest {
        Ok(more) => Ok(done + more),
        Err(refusal) => Err(refusal),
    }
}

/// The shape of the literal `input`, told from its first one or two tokens.
/// An invisible group among them is neither a name nor parentheses nor
/// braces, whatever it holds.
pub fn classify(input: &Tokens) -> (shape: Shape)
    ensures
        shape == shape_of(input@),
{
    let at: usize = if input.is_name_at(0) {
        1
    } else {
        0
    };
    if input.is_kind_at(at, TokenKind::Group(Delim::Paren)) {
        Shape::Tuple
    } else if input.is_kind_at(at, TokenKind::Group(Delim::Brace)) {
        Shape::Named
    } else {
        Shape::Unit
    }
}

/// The name of the type and the number of tokens that it takes of `input`:
/// the identifier that the literal begins with, or else a name made up
/// with a suffix from `supply`, which takes none.
pub fn parse_struct_name(input: &Tokens, supply: &NameSupply) -> (r: (TokenStream, usize))
    ensures
        r.1 == name_len(input@),
        exists|fresh: Seq<char>| #[trigger]
            supply.may_give(fresh) && stream_view(r.0) == name_of(input@, fresh),
{
    if input.is_name_at(0) {
        let name = input.tree(0);
        proof {
            let fresh = supply.lemma_gives_some();
            assert(supply.may_give(fresh) && stream_view(name) == name_of(input@, fresh));
        }
        (name, 1)
    } else {
        (gen_struct_nm(supply), 0)
    }
}

/// Expands a unit literal: `Name`, or nothing at all.
pub fn parse_unit_struct(input: &Tokens, supply: &NameSupply) -> (r: Result<
    TokenStream,
    ExpandError,
>)
    ensures
        exists|fresh: Seq<char>| #[trigger]
            supply.may_give(fresh) && is_outcome(r, expand_unit(input@, fresh)),
{
    let (name, at) = parse_struct_name(input, supply);
    let ghost fresh = choose|fresh: Seq<char>| #[trigger]
        supply.may_give(fresh) && stream_view(name) == name_of(input@, fresh);
    let r = if input.len() > at {
        Err(ExpandError::new(ErrorKind::UnexpectedToken, input.first_from(at)))
    } else {
        Ok(emit_unit(&name))
    };
    assert(supply.may_give(fresh) && is_outcome(r, expand_unit(input@, fresh)));
    r
}

/// Expands a tuple literal: `Name(e0, e1)` or `(e0, e1)`, with at least one
/// expression.
pub fn parse_tuple_struct(input: &Tokens, supply: &NameSupply) -> (r: Result<
    TokenStream,
    ExpandError,
>)
    ensures
        exists|fresh: Seq<char>| #[trigger]
            supply.may_give(fresh) && is_outcome(r, expand_tuple(input@, fresh)),
{
    let (name, at) = parse_struct_name(input, supply);
    let ghost fresh = choose|fresh: Seq<char>| #[trigger]
        supply.may_give(fresh) && stream_view(name) == name_of(input@, fresh);
    let r = tuple_after_name(input, &name, at);
    assert(supply.may_give(fresh) && is_outcome(r, expand_tuple(input@, fresh)));
    r
}

/// The part of a tuple literal behind the name of its type.
fn tuple_after_name(input: &Tokens, name: &TokenStream, at: usize) -> (r: Result<
    TokenStream,
    ExpandError,
>)
    requires
        at == name_len(input@),
    ensures
        forall|fresh: Seq<char>|
            stream_view(*name) == name_of(input@, fresh) ==> is_outcome(
                r,
                #[trigger] expand_tuple(input@, fresh),
            ),
{
    if !input.is_kind_at(at, TokenKind::Group(Delim::Paren)) {
        return Err(ExpandError::new(ErrorKind::ExpectedGroup(Delim::Paren), input.first_from(at)));
    }
    let content = input.content(at);
    if Tokens::new(&content).len() == 0 {
        return Err(ExpandError::new(ErrorKind::EmptyArguments(Shape::Tuple), input.first_from(at)));
    }
    let exprs = match parse_expr_list(content) {
        Ok(exprs) => exprs,
        Err(source) => {
            return Err(ExpandError::expression(source));
        },
    };
    if exprs.len() == 0 {
        return Err(ExpandError::new(ErrorKind::EmptyArguments(Shape::Tuple), input.first_from(at)));
    }
    if input.len() > at + 1 {
        return Err(ExpandError::new(ErrorKind::UnexpectedToken, input.first_from(at + 1)));
    }
    Ok(emit_tuple(name, &exprs))
}

/// Reads the fields of a named literal from what stands between its
/// braces: `f0: e0, f1, f2: e2`, with or without a comma at the end.
pub fn parse_args(content: &TokenStream) -> (r: Result<Vec<Arg>, ExpandError>)
    ensures
        match parse_fields(stream_view(*content)) {
            Ok(fields) => r is Ok && arg_views(r->Ok_0@) == fields,
            Err(refusal) => r is Err && r->Err_0.is_refusal(refusal),
        },
{
    let ghost whole = parse_fields(stream_view(*content));
    let mut args: Vec<Arg> = Vec::new();
    let mut cur = Tokens::new(content);
    let mut pos: usize = 0;
    assert(cur@.skip(0) =~= cur@);
    assert(arg_views(args@) =~= Seq::<Field>::empty());
    assert(Seq::<Field>::empty() + Seq::<Field>::empty() =~= Seq::<Field>::empty());
    loop
        invariant
            pos <= cur@.len(),
            whole == parse_fields(stream_view(*content)),
            whole == fields_then(arg_views(args@), parse_fields(cur@.skip(pos as int))),
        decreases cur@.len() - pos,
    {
        let ghost tokens = cur@.skip(pos as int);
        let ghost done = arg_views(args@);
        if pos == cur.len() {
            assert(done + Seq::<Field>::empty() =~= done);
            return Ok(args);
        }
        if !cur.is_name_at(pos) {
            return Err(ExpandError::new(ErrorKind::ExpectedIdentifier, cur.first_from(pos)));
        }
        let ident = cur.tree(pos);
        assert(stream_view(ident) =~= seq![tokens[0]]);
        if cur.is_kind_at(pos + 1, TokenKind::Punct(':')) {
            let after = cur.rest(pos + 2);
            assert(stream_view(after) =~= tokens.skip(2));
            match parse_expr_prefix(after) {
                Err(source) => {
                    return Err(ExpandError::expression(source));
                },
                Ok((expr, rest)) => {
                    let next = Tokens::new(&rest);
                    if next.len() >= cur.len() - pos {
                        return Err(ExpandError::new(ErrorKind::UnexpectedToken, stream_new()));
                    }
                    args.push(Arg { ident, expr: Some(expr) });
                    cur = next;
                    pos = 0;
                    assert(cur@.skip(0) =~= cur@);
                },
            }
        } else {
            args.push(Arg { ident, expr: None });
            pos = pos + 1;
            assert(cur@.skip(pos as int) =~= tokens.skip(1));
        }
        let ghost head = field_head(tokens)->Ok_0;
        assert(field_head(tokens) is Ok);
        assert(cur@.skip(pos as int) == head.1);
        assert(arg_views(args@) =~= done + seq![head.0]);
        if pos == cur.len() {
            return Ok(args);
        }
        if !cur.is_kind_at(pos, TokenKind::Punct(',')) {
            return Err(ExpandError::new(ErrorKind::ExpectedComma, cur.first_from(pos)));
        }
        pos = pos + 1;
        proof {
            assert(cur@.skip(pos as int) =~= head.1.skip(1));
            let tail = parse_fields(head.1.skip(1));
            if tail is Ok {
                assert(done + (seq![head.0] + tail->Ok_0) =~= (done + seq![head.0]) + tail->Ok_0);
            }
        }
    }
}

/// Expands a named literal: `Name { f0: e0, f1 }` or `{ f0: e0, f1 }`,
/// with at least one field.
pub fn parse_c_struct(input: &Tokens, supply: &NameSupply) -> (r: Result<
    TokenStream,
    ExpandError,
>)
    ensures
        exists|fresh: Seq<char>| #[trigger]
            supply.may_give(fresh) && is_outcome(r, expand_named(input@, fresh)),
{
    let (name, at) = parse_struct_name(input, supply);
    let ghost fresh = choose|fresh: Seq<char>| #[trigger]
        supply.may_give(fresh) && stream_view(name) == name_of(input@, fresh);
    let r = named_after_name(input, &name, at);
    assert(supply.may_give(fresh) && is_outcome(r, expand_named(input@, fresh)));
    r
}

/// The part of a named literal behind the name of its type.
fn named_after_name(input: &Tokens, name: &TokenStream, at: usize) -> (r: Result<
    TokenStream,
    ExpandError,
>)
    requires
        at == name_len(input@),
    ensures
        forall|fresh: Seq<char>|
            stream_view(*name) == name_of(input@, fresh) ==> is_outcome(
                r,
                #[trigger] expand_named(input@, fresh),
            ),
{
    if !input.is_kind_at(at, TokenKind::Group(Delim::Brace)) {
        return Err(ExpandError::new(ErrorKind::ExpectedGroup(Delim::Brace), input.first_from(at)));
    }
    let content = input.content(at);
    let args = match parse_args(&content) {
        Ok(args) => args,
        Err(e) => {
            return Err(e);
        },
    };
    if args.len() == 0 {
        return Err(ExpandError::new(ErrorKind::EmptyArguments(Shape::Named), stream_new()));
    }
    if input.len() > at + 1 {
        return Err(ExpandError::new(ErrorKind::UnexpectedToken, input.first_from(at + 1)));
    }
    Ok(emit_named(name, &args))
}

impl Anym {
    /// Expands the literal `input`, with a suffix from `supply` for the
    /// name of its type where it brings none.
    pub fn parse(input: &TokenStream, supply: &NameSupply) -> (r: Result<Anym, ExpandError>)
        ensures
            exists|fresh: Seq<char>| #[trigger]
                supply.may_give(fresh) && match expansion(stream_view(*input), fresh) {
                    Ok(tokens) => r is Ok && stream_view(r->Ok_0.0) == tokens,
                    Err(refusal) => r is Err && r->Err_0.is_refusal(refusal),
                },
    {
        let tokens = Tokens::new(input);
        let tts = match classify(&tokens) {
            Shape::Unit => parse_unit_struct(&tokens, supply),
            Shape::Tuple => parse_tuple_struct(&tokens, supply),
            Shape::Named => parse_c_struct(&tokens, supply),
        };
        let ghost fresh = choose|fresh: Seq<char>| #[trigger]
            supply.may_give(fresh) && is_outcome(tts, expansion(stream_view(*input), fresh));
        let r = match tts {
            Ok(tts) => Ok(Anym(tts)),
            Err(e) => Err(e),
        };
        assert(supply.may_give(fresh) && match expansion(stream_view(*input), fresh) {
            Ok(tokens) => r is Ok && stream_view(r->Ok_0.0) == tokens,
            Err(refusal) => r is Err && r->Err_0.is_refusal(refusal),
        });
        r
    }
}

} // verus!
