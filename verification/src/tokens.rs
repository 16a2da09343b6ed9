//! Token streams as the expansion sees them.
//!
//! The streams themselves are `proc_macro2::TokenStream` values, so spans
//! survive from the invocation into the expansion. What the logic reads of a
//! stream, and what the contracts say of one, is its sequence of token
//! trees, each reduced to its kind and text.

use proc_macro2::{Delimiter, Group, Ident, Punct, Spacing, Span, TokenStream, TokenTree};
use quote::{ToTokens, TokenStreamExt};
use vstd::prelude::*;

verus! {

#[verifier::external_type_specification]
#[verifier::external_body]
pub struct ExTokenStream(TokenStream);

/// How a group of tokens is delimited.
#[derive(Clone, Copy, Debug, PartialEq, Eq, Structural)]
pub enum Delim {
    /// `( ... )`
    Paren,
    /// `{ ... }`
    Brace,
    /// `[ ... ]`
    Bracket,
    /// No visible delimiter, as around a substituted macro variable.
    Invisible,
}

/// One token tree, spans left aside.
pub enum Tok {
    /// An identifier or keyword, by its text.
    Ident(Seq<char>),
    /// One punctuation character, and whether the next punctuation character
    /// follows it without a gap.
    Punct(char, bool),
    /// A literal, by its text.
    Literal(Seq<char>),
    /// A delimited sequence of token trees.
    Group(Delim, Seq<Tok>),
}

/// What the logic tells apart in one token tree.
#[derive(Clone, Copy, Debug, PartialEq, Eq, Structural)]
pub enum TokenKind {
    Ident,
    Punct(char),
    Literal,
    Group(Delim),
}

/// The token trees that a stream holds, in order.
pub uninterp spec fn stream_view(ts: TokenStream) -> Seq<Tok>;

/// The kind of a token tree.
pub open spec fn kind_of(tok: Tok) -> TokenKind {
    match tok {
        Tok::Ident(_) => TokenKind::Ident,
        Tok::Punct(ch, _) => TokenKind::Punct(ch),
        Tok::Literal(_) => TokenKind::Literal,
        Tok::Group(delim, _) => TokenKind::Group(delim),
    }
}

/// The token trees inside a group; a token of another kind has none.
pub open spec fn content_of(tok: Tok) -> Seq<Tok> {
    match tok {
        Tok::Group(_, content) => content,
        _ => Seq::empty(),
    }
}

/// The views of a list of streams.
pub open spec fn stream_views(streams: Seq<TokenStream>) -> Seq<Seq<Tok>> {
    Seq::new(streams.len(), |i: int| stream_view(streams[i]))
}

/// The characters that `proc_macro2::Punct::new` takes.
pub open spec fn is_punct_char(ch: char) -> bool {
    ||| ch == '!'
    ||| ch == '#'
    ||| ch == '$'
    ||| ch == '%'
    ||| ch == '&'
    ||| ch == '\''
    ||| ch == '*'
    ||| ch == '+'
    ||| ch == ','
    ||| ch == '-'
    ||| ch == '.'
    ||| ch == '/'
    ||| ch == ':'
    ||| ch == ';'
    ||| ch == '<'
    ||| ch == '='
    ||| ch == '>'
    ||| ch == '?'
    ||| ch == '@'
    ||| ch == '^'
    ||| ch == '|'
    ||| ch == '~'
}

/// True of a letter of the ASCII alphabet.
pub open spec fn is_ascii_letter(c: char) -> bool {
    ('A' <= c <= 'Z') || ('a' <= c <= 'z')
}

/// True of an ASCII digit.
pub open spec fn is_ascii_digit(c: char) -> bool {
    '0' <= c <= '9'
}

/// Identifier texts made of ASCII letters, digits and underscores that do
/// not begin with a digit. Every such text is a legal identifier.
pub open spec fn is_plain_ident(text: Seq<char>) -> bool {
    &&& text.len() > 0
    &&& is_ascii_letter(text[0]) || text[0] == '_'
    &&& forall|i: int|
        0 <= i < text.len() ==> is_ascii_letter(#[trigger] text[i]) || is_ascii_digit(text[i])
            || text[i] == '_'
}

/// `TokenStream::new`: a stream without tokens.
#[verifier::external_body]
pub(crate) fn stream_new() -> (ts: TokenStream)
    ensures
        stream_view(ts) == Seq::<Tok>::empty(),
{
    TokenStream::new()
}

/// `TokenStreamExt::append` of an `Ident::new` at the call site, which is
/// how `quote` emits a word: the stream grows by one identifier with the
/// text `text`. `Ident::new` panics on a text that is no identifier; a
/// text of ASCII letters, digits and underscores that begins with no digit
/// is one.
#[verifier::external_body]
pub(crate) fn push_ident(ts: &mut TokenStream, text: &str)
    requires
        is_plain_ident(text@),
    ensures
        stream_view(*final(ts)) == stream_view(*old(ts)).push(Tok::Ident(text@)),
{
    ts.append(Ident::new(text, Span::call_site()));
}

/// `TokenStreamExt::append` of a `Punct::new` that stands alone, which is
/// how `quote` emits a one-character operator. `Punct::new` panics on a
/// character outside its list.
#[verifier::external_body]
pub(crate) fn push_punct(ts: &mut TokenStream, ch: char)
    requires
        is_punct_char(ch),
    ensures
        stream_view(*final(ts)) == stream_view(*old(ts)).push(Tok::Punct(ch, false)),
{
    ts.append(Punct::new(ch, Spacing::Alone));
}

/// `TokenStreamExt::append` of a `Group::new`: the stream grows by one group
/// that holds `inner` between the delimiters `delim`.
#[verifier::external_body]
pub(crate) fn push_group(ts: &mut TokenStream, delim: Delim, inner: TokenStream)
    ensures
        stream_view(*final(ts)) == stream_view(*old(ts)).push(
            Tok::Group(delim, stream_view(inner)),
        ),
{
    let delimiter = match delim {
        Delim::Paren => Delimiter::Parenthesis,
        Delim::Brace => Delimiter::Brace,
        Delim::Bracket => Delimiter::Bracket,
        Delim::Invisible => Delimiter::None,
    };
    ts.append(Group::new(delimiter, inner));
}

/// `ToTokens::to_tokens` of a stream, which is how `quote` interpolates
/// one: the tokens of `more` are appended to `ts`, and `more` stays as it is.
#[verifier::external_body]
pub(crate) fn push_tokens(ts: &mut TokenStream, more: &TokenStream)
    ensures
        stream_view(*final(ts)) == stream_view(*old(ts)) + stream_view(*more),
{
    more.to_tokens(ts);
}

/// `TokenStream::into_iter`, each `TokenTree` that it gives made a stream
/// of its own by `TokenStream::from`: as many streams as the stream holds
/// token trees, each of one token tree, in the order of the stream.
#[verifier::external_body]
pub(crate) fn stream_trees(ts: &TokenStream) -> (trees: Vec<TokenStream>)
    ensures
        trees@.len() == stream_view(*ts).len(),
        forall|i: int|
            0 <= i < trees@.len() ==> #[trigger] stream_view(trees@[i]) == seq![
                stream_view(*ts)[i],
            ],
{
    ts.clone().into_iter().map(TokenStream::from).collect()
}

/// The kind of the token tree that `TokenStream::into_iter` gives first,
/// read off the variant of the `TokenTree`, with `Punct::as_char` for the
/// character and `Group::delimiter` for the delimiter.
#[verifier::external_body]
pub(crate) fn first_kind(ts: &TokenStream) -> (kind: TokenKind)
    requires
        stream_view(*ts).len() > 0,
    ensures
        kind == kind_of(stream_view(*ts)[0]),
{
    match ts.clone().into_iter().next().unwrap() {
        TokenTree::Ident(_) => TokenKind::Ident,
        TokenTree::Punct(p) => TokenKind::Punct(p.as_char()),
        TokenTree::Literal(_) => TokenKind::Literal,
        TokenTree::Group(g) => TokenKind::Group(
            match g.delimiter() {
                Delimiter::Parenthesis => Delim::Paren,
                Delimiter::Brace => Delim::Brace,
                Delimiter::Bracket => Delim::Bracket,
                Delimiter::None => Delim::Invisible,
            },
        ),
    }
}

/// `Group::stream` of the token tree that `TokenStream::into_iter` gives
/// first, which is to be a group: the tokens between its delimiters.
#[verifier::external_body]
pub(crate) fn group_content(ts: &TokenStream) -> (inner: TokenStream)
    requires
        stream_view(*ts).len() > 0,
        stream_view(*ts)[0] is Group,
    ensures
        stream_view(inner) == content_of(stream_view(*ts)[0]),
{
    match ts.clone().into_iter().next() {
        Some(TokenTree::Group(g)) => g.stream(),
        _ => TokenStream::new(),
    }
}

} // verus!
