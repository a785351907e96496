//! Token trees: the values that the declaration parser and the rewriter work on.
use vstd::prelude::*;

verus! {

/// A source location, as an index into a table kept by the caller (0 is the call site).
#[derive(Clone, Copy, Debug, PartialEq, Eq, Structural)]
pub struct Span {
    pub id: u64,
}

impl Span {
    /// The call-site location: what tokens made by the library carry.
    pub open spec fn spec_call_site() -> Span {
        Span { id: 0 }
    }

    #[verifier::when_used_as_spec(spec_call_site)]
    pub fn call_site() -> (r: Span)
        ensures
            r == Span::spec_call_site(),
    {
        Span { id: 0 }
    }
}

#[derive(Clone, Copy, Debug, PartialEq, Eq, Structural)]
pub enum Delimiter {
    Parenthesis,
    Brace,
    Bracket,
    /// A group without visible delimiters.
    Invisible,
}

#[derive(Clone, Copy, Debug, PartialEq, Eq, Structural)]
pub enum Spacing {
    Alone,
    Joint,
}

#[derive(Debug, PartialEq, Eq)]
pub struct Ident {
    pub name: String,
    pub span: Span,
}

#[derive(Debug, PartialEq, Eq)]
pub enum TokenTree {
    Ident(Ident),
    Punct { ch: char, spacing: Spacing, span: Span },
    Literal { repr: String, span: Span },
    Group { delimiter: Delimiter, stream: Vec<TokenTree>, span: Span },
}

/// The mathematical value of a token tree.
pub enum Tok {
    Ident { name: Seq<char>, span: Span },
    Punct { ch: char, spacing: Spacing, span: Span },
    Literal { repr: Seq<char>, span: Span },
    Group { delimiter: Delimiter, stream: Seq<Tok>, span: Span },
}

pub open spec fn tree_view(t: TokenTree) -> Tok
    decreases t,
{
    match t {
        TokenTree::Ident(i) => Tok::Ident { name: i.name@, span: i.span },
        TokenTree::Punct { ch, spacing, span } => Tok::Punct { ch, spacing, span },
        TokenTree::Literal { repr, span } => Tok::Literal { repr: repr@, span },
        TokenTree::Group { delimiter, stream, span } => Tok::Group {
            delimiter,
            stream: trees_view(stream@),
            span,
        },
    }
}

pub open spec fn trees_view(s: Seq<TokenTree>) -> Seq<Tok>
    decreases s,
{
    if s.len() == 0 {
        Seq::empty()
    } else {
        trees_view(s.subrange(0, s.len() - 1)).push(tree_view(s[s.len() - 1]))
    }
}

impl View for TokenTree {
    type V = Tok;

    open spec fn view(&self) -> Tok {
        tree_view(*self)
    }
}

pub proof fn lemma_trees_view_len(s: Seq<TokenTree>)
    ensures
        trees_view(s).len() == s.len(),
    decreases s.len(),
{
    if s.len() > 0 {
        lemma_trees_view_len(s.subrange(0, s.len() - 1));
    }
}

pub proof fn lemma_trees_view_index(s: Seq<TokenTree>, i: int)
    requires
        0 <= i < s.len(),
    ensures
        trees_view(s).len() == s.len(),
        trees_view(s)[i] == tree_view(s[i]),
    decreases s.len(),
{
    lemma_trees_view_len(s);
    if i < s.len() - 1 {
        lemma_trees_view_index(s.subrange(0, s.len() - 1), i);
    }
}

/// Viewing a sequence extended by one token extends its view by that token's view.
pub proof fn lemma_trees_view_push(s: Seq<TokenTree>, t: TokenTree)
    ensures
        trees_view(s.push(t)) == trees_view(s).push(tree_view(t)),
{
    assert(s.push(t).subrange(0, s.len() as int) =~= s);
}

pub proof fn lemma_trees_view_take(s: Seq<TokenTree>, i: int)
    requires
        0 <= i < s.len(),
    ensures
        trees_view(s.take(i + 1)) == trees_view(s.take(i)).push(tree_view(s[i])),
{
    assert(s.take(i + 1).subrange(0, i) =~= s.take(i));
}

pub proof fn lemma_trees_view_concat(a: Seq<TokenTree>, b: Seq<TokenTree>)
    ensures
        trees_view(a + b) == trees_view(a) + trees_view(b),
    decreases b.len(),
{
    if b.len() == 0 {
        assert(a + b =~= a);
        assert(trees_view(a) + trees_view(b) =~= trees_view(a));
    } else {
        let b0 = b.subrange(0, b.len() - 1);
        lemma_trees_view_concat(a, b0);
        assert((a + b).subrange(0, (a + b).len() - 1) =~= a + b0);
        assert(trees_view(a) + trees_view(b) =~= trees_view(a) + trees_view(b0) + seq![tree_view(b[b.len() - 1])]);
    }
}

/// The view of a sequence holds the view of each token, in place.
pub proof fn lemma_view_all(s: Seq<TokenTree>)
    ensures
        trees_view(s).len() == s.len(),
        forall|i: int| 0 <= i < s.len() ==> #[trigger] trees_view(s)[i] == s[i]@,
{
    lemma_trees_view_len(s);
    assert forall|i: int| 0 <= i < s.len() implies #[trigger] trees_view(s)[i] == s[i]@ by {
        lemma_trees_view_index(s, i);
    }
}

impl Ident {
    pub fn duplicate(&self) -> (r: Ident)
        ensures
            r.name@ == self.name@,
            r.span == self.span,
    {
        Ident { name: self.name.clone(), span: self.span }
    }
}

impl TokenTree {
    /// A copy of the token, with the same value.
    pub fn duplicate(&self) -> (r: TokenTree)
        ensures
            r@ == self@,
        decreases self,
    {
        match self {
            TokenTree::Ident(i) => TokenTree::Ident(i.duplicate()),
            TokenTree::Punct { ch, spacing, span } => TokenTree::Punct {
                ch: *ch,
                spacing: *spacing,
                span: *span,
            },
            TokenTree::Literal { repr, span } => TokenTree::Literal { repr: repr.clone(), span: *span },
            TokenTree::Group { delimiter, stream, span } => {
                let s = duplicate_all(stream);
                TokenTree::Group { delimiter: *delimiter, stream: s, span: *span }
            },
        }
    }
}

/// A copy of a token sequence, with the same value.
pub fn duplicate_all(v: &Vec<TokenTree>) -> (r: Vec<TokenTree>)
    ensures
        trees_view(r@) == trees_view(v@),
    decreases v,
{
    let mut r: Vec<TokenTree> = Vec::new();
    let mut i: usize = 0;
    while i < v.len()
        invariant
            i <= v.len(),
            trees_view(r@) == trees_view(v@.take(i as int)),
        decreases v.len() - i,
    {
        proof {
            vstd::std_specs::vec::axiom_vec_index_decreases(*v, i as int);
        }
        let t = v[i].duplicate();
        proof {
            lemma_trees_view_push(r@, t);
            lemma_trees_view_take(v@, i as int);
        }
        r.push(t);
        i = i + 1;
    }
    assert(v@.take(v.len() as int) =~= v@);
    r
}

} // verus!
