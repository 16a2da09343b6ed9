//! The emitters: the pieces of an expansion, built token by token.

use crate::model::{
    block, comma_terminated, field_bind, field_binds, field_decl, field_decls,
    lemma_comma_terminated_push, named_declaration, named_value, params, struct_keyword,
    tuple_declaration, tuple_value, unit_declaration, word, Field,
};
use crate::names::gen_ty_anot;
use crate::tokens::{
    push_group, push_ident, push_punct, push_tokens, stream_new, stream_view, stream_views, Delim,
};
use proc_macro2::TokenStream;
use vstd::prelude::*;

verus! {

/// One field of a named literal: the identifier that names it, as a stream
/// of one token, and the expression that gives its value, unless the field
/// stands for a variable of the same name.
#[derive(Debug)]
pub struct Arg {
    pub ident: TokenStream,
    pub expr: Option<TokenStream>,
}

impl Arg {
    /// The field, spans left aside.
    pub open spec fn view(&self) -> Field {
        Field {
            name: stream_view(self.ident),
            value: match self.expr {
                Some(expr) => Some(stream_view(expr)),
                None => None,
            },
        }
    }
}

/// The views of a list of fields.
pub open spec fn arg_views(args: Seq<Arg>) -> Seq<Field> {
    Seq::new(args.len(), |i: int| args[i]@)
}

/// Appends the keyword `struct`.
fn push_struct_keyword(ts: &mut TokenStream)
    ensures
        stream_view(*final(ts)) == stream_view(*old(ts)).push(word(struct_keyword())),
{
    proof {
        reveal_strlit("struct");
        assert("struct"@ =~= struct_keyword());
    }
    push_ident(ts, "struct");
}

/// The placeholder type parameters of `n` positions, a comma behind each:
/// `T0, T1,`.
pub fn emit_params(n: usize) -> (ts: TokenStream)
    ensures
        stream_view(ts) == comma_terminated(params(n as nat)),
{
    let ghost items = params(n as nat);
    let mut ts = stream_new();
    let mut i: usize = 0;
    while i < n
        invariant
            i <= n,
            items == params(n as nat),
            stream_view(ts) == comma_terminated(items.take(i as int)),
        decreases n - i,
    {
        let param = gen_ty_anot(i);
        push_tokens(&mut ts, &param);
        push_punct(&mut ts, ',');
        proof {
            lemma_comma_terminated_push(items.take(i as int), stream_view(param));
            assert(items.take(i + 1) =~= items.take(i as int).push(stream_view(param)));
        }
        i = i + 1;
    }
    assert(items.take(i as int) =~= items);
    ts
}

/// The expressions in their order, a comma behind each: `e0, e1,`.
pub fn emit_args(exprs: &Vec<TokenStream>) -> (ts: TokenStream)
    ensures
        stream_view(ts) == comma_terminated(stream_views(exprs@)),
{
    let ghost items = stream_views(exprs@);
    let mut ts = stream_new();
    let mut i: usize = 0;
    while i < exprs.len()
        invariant
            i <= exprs@.len(),
            items == stream_views(exprs@),
            stream_view(ts) == comma_terminated(items.take(i as int)),
        decreases exprs@.len() - i,
    {
        push_tokens(&mut ts, &exprs[i]);
        push_punct(&mut ts, ',');
        proof {
            lemma_comma_terminated_push(items.take(i as int), stream_view(exprs@[i as int]));
            assert(items.take(i + 1) =~= items.take(i as int).push(stream_view(exprs@[i as int])));
        }
        i = i + 1;
    }
    assert(items.take(i as int) =~= items);
    ts
}

/// The declarations of the fields, a comma behind each: `f0: T0, f1: T1,`.
pub fn emit_field_decls(args: &Vec<Arg>) -> (ts: TokenStream)
    ensures
        stream_view(ts) == comma_terminated(field_decls(arg_views(args@))),
{
    let ghost items = field_decls(arg_views(args@));
    let mut ts = stream_new();
    let mut i: usize = 0;
    while i < args.len()
        invariant
            i <= args@.len(),
            items == field_decls(arg_views(args@)),
            stream_view(ts) == comma_terminated(items.take(i as int)),
        decreases args@.len() - i,
    {
        let ghost before = stream_view(ts);
        let ty = gen_ty_anot(i);
        push_tokens(&mut ts, &args[i].ident);
        push_punct(&mut ts, ':');
        push_tokens(&mut ts, &ty);
        proof {
            assert(stream_view(ts) =~= before + field_decl(args@[i as int]@, i as nat));
        }
        push_punct(&mut ts, ',');
        proof {
            let item = field_decl(args@[i as int]@, i as nat);
            lemma_comma_terminated_push(items.take(i as int), item);
            assert(items.take(i + 1) =~= items.take(i as int).push(item));
        }
        i = i + 1;
    }
    assert(items.take(i as int) =~= items);
    ts
}

/// The bindings of the fields, a comma behind each: `f0: e0, f1,`.
pub fn emit_field_binds(args: &Vec<Arg>) -> (ts: TokenStream)
    ensures
        stream_view(ts) == comma_terminated(field_binds(arg_views(args@))),
{
    let ghost items = field_binds(arg_views(args@));
    let mut ts = stream_new();
    let mut i: usize = 0;
    while i < args.len()
        invariant
            i <= args@.len(),
            items == field_binds(arg_views(args@)),
            stream_view(ts) == comma_terminated(items.take(i as int)),
        decreases args@.len() - i,
    {
        let ghost before = stream_view(ts);
        push_tokens(&mut ts, &args[i].ident);
        match &args[i].expr {
            Some(expr) => {
                push_punct(&mut ts, ':');
                push_tokens(&mut ts, expr);
            },
            None => {},
        }
        proof {
            assert(stream_view(ts) =~= before + field_bind(args@[i as int]@));
        }
        push_punct(&mut ts, ',');
        proof {
            let item = field_bind(args@[i as int]@);
            lemma_comma_terminated_push(items.take(i as int), item);
            assert(items.take(i + 1) =~= items.take(i as int).push(item));
        }
        i = i + 1;
    }
    assert(items.take(i as int) =~= items);
    ts
}

/// The block `{ declaration value }`.
pub fn emit_block(declaration: &TokenStream, value: &TokenStream) -> (ts: TokenStream)
    ensures
        stream_view(ts) == block(stream_view(*declaration), stream_view(*value)),
{
    let mut inner = stream_new();
    push_tokens(&mut inner, declaration);
    push_tokens(&mut inner, value);
    let mut ts = stream_new();
    push_group(&mut ts, Delim::Brace, inner);
    assert(stream_view(ts) =~= block(stream_view(*declaration), stream_view(*value)));
    ts
}

/// The expansion of a unit literal with the name `name`:
/// `{ struct Name; Name }`.
pub fn emit_unit(name: &TokenStream) -> (ts: TokenStream)
    ensures
        stream_view(ts) == block(unit_declaration(stream_view(*name)), stream_view(*name)),
{
    let mut declaration = stream_new();
    push_struct_keyword(&mut declaration);
    push_tokens(&mut declaration, name);
    push_punct(&mut declaration, ';');
    assert(stream_view(declaration) =~= unit_declaration(stream_view(*name)));
    emit_block(&declaration, name)
}

/// The expansion of a tuple literal with the name `name` and the
/// expressions `exprs`: `{ struct Name<T0, T1,>(T0, T1,); Name(e0, e1,) }`.
pub fn emit_tuple(name: &TokenStream, exprs: &Vec<TokenStream>) -> (ts: TokenStream)
    ensures
        stream_view(ts) == block(
            tuple_declaration(stream_view(*name), exprs@.len()),
            tuple_value(stream_view(*name), stream_views(exprs@)),
        ),
{
    let params = emit_params(exprs.len());
    let mut declaration = stream_new();
    push_struct_keyword(&mut declaration);
    push_tokens(&mut declaration, name);
    push_punct(&mut declaration, '<');
    push_tokens(&mut declaration, &params);
    push_punct(&mut declaration, '>');
    push_group(&mut declaration, Delim::Paren, params);
    push_punct(&mut declaration, ';');
    assert(stream_view(declaration) =~= tuple_declaration(stream_view(*name), exprs@.len()));
    let mut value = stream_new();
    push_tokens(&mut value, name);
    push_group(&mut value, Delim::Paren, emit_args(exprs));
    assert(stream_view(value) =~= tuple_value(stream_view(*name), stream_views(exprs@)));
    emit_block(&declaration, &value)
}

/// The expansion of a named literal with the name `name` and the fields
/// `args`: `{ struct Name<T0, T1,> { f0: T0, f1: T1, } Name { f0: e0, f1, } }`.
pub fn emit_named(name: &TokenStream, args: &Vec<Arg>) -> (ts: TokenStream)
    ensures
        stream_view(ts) == block(
            named_declaration(stream_view(*name), arg_views(args@)),
            named_value(stream_view(*name), arg_views(args@)),
        ),
{
    let params = emit_params(args.len());
    let mut declaration = stream_new();
    push_struct_keyword(&mut declaration);
    push_tokens(&mut declaration, name);
    push_punct(&mut declaration, '<');
    push_tokens(&mut declaration, &params);
    push_punct(&mut declaration, '>');
    push_group(&mut declaration, Delim::Brace, emit_field_decls(args));
    assert(stream_view(declaration) =~= named_declaration(
        stream_view(*name),
        arg_views(args@),
    ));
    let mut value = stream_new();
    push_tokens(&mut value, name);
    push_group(&mut value, Delim::Brace, emit_field_binds(args));
    assert(stream_view(value) =~= named_value(stream_view(*name), arg_views(args@)));
    emit_block(&declaration, &value)
}

} // verus!
