//! The tokens of one invocation, held so that the expansion can look at
//! each by its position.
//!
//! A position holds one token tree. A group counts as one, whatever its
//! delimiters: an invisible group is not opened, so an identifier inside
//! one is no name at the position of the group.

use crate::syntax::{accepted_ident, is_accepted_ident, text_of};
use crate::tokens::{
    content_of, first_kind, group_content, kind_of, push_tokens, stream_new, stream_trees,
    stream_view, Tok, TokenKind,
};
use proc_macro2::TokenStream;
use vstd::prelude::*;

verus! {

/// True of a word that can name a type or a field: an identifier that is no
/// keyword.
pub open spec fn is_name(tok: Tok) -> bool {
    tok is Ident && accepted_ident(text_of(tok))
}

/// A sequence of token trees.
pub struct Tokens {
    trees: Vec<TokenStream>,
}

impl Tokens {
    #[verifier::type_invariant]
    spec fn inv(self) -> bool {
        forall|i: int|
            0 <= i < self.trees@.len() ==> (#[trigger] stream_view(self.trees@[i])).len() == 1
    }

    /// The token trees, in order.
    pub closed spec fn view(&self) -> Seq<Tok> {
        Seq::new(self.trees@.len(), |i: int| stream_view(self.trees@[i])[0])
    }

    /// The token trees of `stream`.
    pub fn new(stream: &TokenStream) -> (tokens: Self)
        ensures
            tokens@ == stream_view(*stream),
    {
        let trees = stream_trees(stream);
        let tokens = Tokens { trees };
        assert(tokens@ =~= stream_view(*stream));
        tokens
    }

    /// The number of token trees.
    pub fn len(&self) -> (n: usize)
        ensures
            n == self@.len(),
    {
        self.trees.len()
    }

    /// The kind of the token tree at `i`.
    pub(crate) fn kind(&self, i: usize) -> (kind: TokenKind)
        requires
            i < self@.len(),
        ensures
            kind == kind_of(self@[i as int]),
    {
        proof {
            use_type_invariant(self);
        }
        first_kind(&self.trees[i])
    }

    /// Whether the token tree at `i` is there and can name a type or a
    /// field.
    pub fn is_name_at(&self, i: usize) -> (yes: bool)
        ensures
            yes == (i < self@.len() && is_name(self@[i as int])),
    {
        proof {
            use_type_invariant(self);
        }
        if i >= self.trees.len() {
            return false;
        }
        match first_kind(&self.trees[i]) {
            TokenKind::Ident => is_accepted_ident(&self.trees[i]),
            _ => false,
        }
    }

    /// Whether the token tree at `i` is there and has the kind `kind`.
    pub fn is_kind_at(&self, i: usize, kind: TokenKind) -> (yes: bool)
        ensures
            yes == (i < self@.len() && kind_of(self@[i as int]) == kind),
    {
        if i >= self.trees.len() {
            return false;
        }
        self.kind(i) == kind
    }

    /// The token tree at `i`, as a stream of its own.
    pub(crate) fn tree(&self, i: usize) -> (tree: TokenStream)
        requires
            i < self@.len(),
        ensures
            stream_view(tree) == seq![self@[i as int]],
    {
        proof {
            use_type_invariant(self);
        }
        let mut tree = stream_new();
        push_tokens(&mut tree, &self.trees[i]);
        assert(stream_view(tree) =~= seq![self@[i as int]]);
        tree
    }

    /// The token tree at `i` as a stream of its own, or the empty stream
    /// where there is none.
    pub fn first_from(&self, i: usize) -> (tree: TokenStream)
        ensures
            i < self@.len() ==> stream_view(tree) == seq![self@[i as int]],
            i >= self@.len() ==> stream_view(tree) == Seq::<Tok>::empty(),
    {
        if i < self.trees.len() {
            self.tree(i)
        } else {
            stream_new()
        }
    }

    /// The tokens inside the group at `i`.
    pub(crate) fn content(&self, i: usize) -> (inner: TokenStream)
        requires
            i < self@.len(),
            self@[i as int] is Group,
        ensures
            stream_view(inner) == content_of(self@[i as int]),
    {
        proof {
            use_type_invariant(self);
        }
        group_content(&self.trees[i])
    }

    /// The token trees from `from` on, as one stream.
    pub(crate) fn rest(&self, from: usize) -> (stream: TokenStream)
        requires
            from <= self@.len(),
        ensures
            stream_view(stream) == self@.skip(from as int),
    {
        proof {
            use_type_invariant(self);
        }
        let mut stream = stream_new();
        let mut i: usize = from;
        while i < self.trees.len()
            invariant
                from <= i <= self.trees@.len(),
                forall|k: int|
                    0 <= k < self.trees@.len() ==> (#[trigger] stream_view(self.trees@[k])).len()
                        == 1,
                stream_view(stream) == self@.subrange(from as int, i as int),
            decreases self.trees@.len() - i,
        {
            push_tokens(&mut stream, &self.trees[i]);
            assert(stream_view(stream) =~= self@.subrange(from as int, i + 1));
            i = i + 1;
        }
        assert(self@.subrange(from as int, i as int) =~= self@.skip(from as int));
        stream
    }
}

} // verus!
