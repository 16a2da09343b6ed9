//! What the expansion leaves to the parser of Rust syntax: whether a word
//! can name something, and where an expression ends.

use crate::tokens::{stream_view, stream_views, Tok};
use proc_macro2::TokenStream;
use quote::ToTokens;
use syn::parse::{ParseStream, Parser};
use syn::punctuated::Punctuated;
use vstd::prelude::*;

verus! {

#[verifier::external_type_specification]
#[verifier::external_body]
pub struct ExSynError(syn::Error);

/// Whether `syn` takes the word `text` for an identifier: it does unless
/// the word is a keyword or a lone underscore.
pub uninterp spec fn accepted_ident(text: Seq<char>) -> bool;

/// The expressions that `syn` reads from `content`, a list of expressions
/// with a comma between two of them and possibly one behind the last, each
/// as the tokens it prints; `None` where `content` is no such list.
pub uninterp spec fn parsed_exprs(content: Seq<Tok>) -> Option<Seq<Seq<Tok>>>;

/// The expression that `syn` reads from the front of `tokens`, as the
/// tokens it prints, and the tokens that it leaves; `None` where `tokens`
/// do not begin with an expression.
pub uninterp spec fn parsed_expr_prefix(tokens: Seq<Tok>) -> Option<(Seq<Tok>, Seq<Tok>)>;

/// The text of an identifier; a token of another kind has none.
pub open spec fn text_of(tok: Tok) -> Seq<char> {
    match tok {
        Tok::Ident(text) => text,
        _ => Seq::empty(),
    }
}

/// `syn::parse2::<syn::Ident>` on a stream of one word: whether the word is
/// taken for an identifier, which depends on its text alone.
#[verifier::external_body]
pub(crate) fn is_accepted_ident(word: &TokenStream) -> (ok: bool)
    requires
        stream_view(*word).len() == 1,
        stream_view(*word)[0] is Ident,
    ensures
        ok == accepted_ident(text_of(stream_view(*word)[0])),
{
    syn::parse2::<syn::Ident>(word.clone()).is_ok()
}

/// `Punctuated::<syn::Expr, syn::token::Comma>::parse_terminated`, run over
/// the whole of `content` by `Parser::parse2`, each expression handed out
/// as the tokens that `ToTokens::into_token_stream` prints for it. The
/// outcome depends on the tokens alone.
#[verifier::external_body]
pub(crate) fn parse_expr_list(content: TokenStream) -> (r: Result<Vec<TokenStream>, syn::Error>)
    ensures
        r is Ok <==> parsed_exprs(stream_view(content)) is Some,
        r matches Ok(exprs) ==> parsed_exprs(stream_view(content)) == Some(stream_views(exprs@)),
{
    let exprs = Punctuated::<syn::Expr, syn::token::Comma>::parse_terminated.parse2(content)?;
    Ok(exprs.into_iter().map(|expr| expr.into_token_stream()).collect())
}

/// `Parser::parse2` with a parser that reads a `syn::Expr` from the front
/// of `tokens` and then a `TokenStream`, which is whatever the expression
/// left: the expression as the tokens that `ToTokens::into_token_stream`
/// prints for it, and the rest. The outcome depends on the tokens alone.
#[verifier::external_body]
pub(crate) fn parse_expr_prefix(tokens: TokenStream) -> (r: Result<
    (TokenStream, TokenStream),
    syn::Error,
>)
    ensures
        r is Ok <==> parsed_expr_prefix(stream_view(tokens)) is Some,
        r matches Ok(found) ==> parsed_expr_prefix(stream_view(tokens)) == Some(
            (stream_view(found.0), stream_view(found.1)),
        ),
{
    let parser = |input: ParseStream| -> syn::Result<(syn::Expr, TokenStream)> {
        Ok((input.parse()?, input.parse()?))
    };
    let (expr, rest) = parser.parse2(tokens)?;
    Ok((expr.into_token_stream(), rest))
}

} // verus!
