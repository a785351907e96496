//! Paths of a `use` declaration and the bindings they give.
use vstd::prelude::*;
use crate::tokens::{lemma_trees_view_push, trees_view, Ident, Span, Spacing, Tok, TokenTree};

verus! {

/// One segment of a path: a name, or `#` and a token that the caller splices in.
#[derive(Debug, PartialEq, Eq)]
pub enum IdentOrPounded {
    Ident(Ident),
    /// The span of the `#` and the token after it.
    Pounded(Span, TokenTree),
}

/// The mathematical value of a path segment.
pub enum Seg {
    Name { name: Seq<char>, span: Span },
    Placeholder { pound: Span, token: Tok },
}

impl View for IdentOrPounded {
    type V = Seg;

    open spec fn view(&self) -> Seg {
        match self {
            IdentOrPounded::Ident(i) => Seg::Name { name: i.name@, span: i.span },
            IdentOrPounded::Pounded(p, t) => Seg::Placeholder { pound: *p, token: t@ },
        }
    }
}

/// A path: a sequence of segments.
#[derive(Debug, PartialEq, Eq)]
pub struct Path(pub Vec<IdentOrPounded>);

impl View for Path {
    type V = Seq<Seg>;

    open spec fn view(&self) -> Seq<Seg> {
        self.0@.map_values(|s: IdentOrPounded| s@)
    }
}

/// A binding: the bare name (last field) stands for the path (first field).
#[derive(Debug, PartialEq, Eq)]
pub struct Use(pub Path, pub Ident);

/// The mathematical value of a binding.
pub struct Binding {
    pub path: Seq<Seg>,
    pub name: Seq<char>,
    pub span: Span,
}

impl View for Use {
    type V = Binding;

    open spec fn view(&self) -> Binding {
        Binding { path: self.0@, name: self.1.name@, span: self.1.span }
    }
}

/// The bindings of one `use` declaration.
#[derive(Debug, PartialEq, Eq, Default)]
pub struct UseItem(pub Vec<Use>);

pub open spec fn uses_view(u: Seq<Use>) -> Seq<Binding> {
    u.map_values(|x: Use| x@)
}

pub open spec fn is_self_name(n: Seq<char>) -> bool {
    n == "self"@
}

pub open spec fn seg_is_self(s: Seg) -> bool {
    match s {
        Seg::Name { name, .. } => is_self_name(name),
        _ => false,
    }
}

/// The `::` that the library emits, at the call site.
pub open spec fn colons() -> Seq<Tok> {
    seq![
        Tok::Punct { ch: ':', spacing: Spacing::Joint, span: Span::spec_call_site() },
        Tok::Punct { ch: ':', spacing: Spacing::Alone, span: Span::spec_call_site() },
    ]
}

pub open spec fn seg_tokens(s: Seg) -> Seq<Tok> {
    match s {
        Seg::Name { name, span } => seq![Tok::Ident { name, span }],
        Seg::Placeholder { pound, token } => seq![
            Tok::Punct { ch: '#', spacing: Spacing::Alone, span: pound },
            token,
        ],
    }
}

/// Each segment in turn, each one preceded by `::`.
pub open spec fn joined(segs: Seq<Seg>) -> Seq<Tok>
    decreases segs.len(),
{
    if segs.len() == 0 {
        Seq::empty()
    } else {
        joined(segs.drop_last()) + colons() + seg_tokens(segs.last())
    }
}

/// The tokens of a non-empty path: `::` first where it starts with a name, so that
/// the path is absolute, then the segments separated by `::`.
pub open spec fn render(segs: Seq<Seg>) -> Seq<Tok> {
    (if segs[0] is Name { colons() } else { Seq::empty() }) + seg_tokens(segs[0]) + joined(
        segs.subrange(1, segs.len() as int),
    )
}

/// Whether the name's text is `lit`.
pub fn name_is(n: &String, lit: &str) -> (r: bool)
    ensures
        r == (n@ == lit@),
{
    let s = lit.to_owned();
    n.eq(&s)
}

impl IdentOrPounded {
    pub fn is_self(&self) -> (r: bool)
        ensures
            r == seg_is_self(self@),
    {
        match self {
            IdentOrPounded::Ident(i) => name_is(&i.name, "self"),
            _ => false,
        }
    }

    pub fn is_ident(&self) -> (r: bool)
        ensures
            r == (self@ is Name),
    {
        matches!(self, IdentOrPounded::Ident(_))
    }

    pub fn duplicate(&self) -> (r: IdentOrPounded)
        ensures
            r@ == self@,
    {
        match self {
            IdentOrPounded::Ident(i) => IdentOrPounded::Ident(i.duplicate()),
            IdentOrPounded::Pounded(p, t) => IdentOrPounded::Pounded(*p, t.duplicate()),
        }
    }

    /// Appends the segment's tokens to `out`.
    pub fn to_tokens(&self, out: &mut Vec<TokenTree>)
        ensures
            trees_view(final(out)@) == trees_view(old(out)@) + seg_tokens(self@),
    {
        match self {
            IdentOrPounded::Ident(i) => {
                let t = TokenTree::Ident(i.duplicate());
                proof {
                    lemma_trees_view_push(out@, t);
                }
                out.push(t);
            },
            IdentOrPounded::Pounded(p, t) => {
                let pound = TokenTree::Punct { ch: '#', spacing: Spacing::Alone, span: *p };
                proof {
                    lemma_trees_view_push(out@, pound);
                }
                out.push(pound);
                let t2 = t.duplicate();
                proof {
                    lemma_trees_view_push(out@, t2);
                }
                out.push(t2);
            },
        }
        assert(trees_view(out@) =~= trees_view(old(out)@) + seg_tokens(self@));
    }
}

/// Appends `::` to `out`.
pub fn push_colons(out: &mut Vec<TokenTree>)
    ensures
        trees_view(final(out)@) == trees_view(old(out)@) + colons(),
{
    let a = TokenTree::Punct { ch: ':', spacing: Spacing::Joint, span: Span::call_site() };
    proof {
        lemma_trees_view_push(out@, a);
    }
    out.push(a);
    let b = TokenTree::Punct { ch: ':', spacing: Spacing::Alone, span: Span::call_site() };
    proof {
        lemma_trees_view_push(out@, b);
    }
    out.push(b);
    assert(trees_view(out@) =~= trees_view(old(out)@) + colons());
}

impl Path {
    pub fn new() -> (r: Path)
        ensures
            r@ == Seq::<Seg>::empty(),
    {
        Path(Vec::new())
    }

    pub fn len(&self) -> (r: usize)
        ensures
            r == self@.len(),
    {
        self.0.len()
    }

    pub fn duplicate(&self) -> (r: Path)
        ensures
            r@ == self@,
    {
        let mut v: Vec<IdentOrPounded> = Vec::new();
        let mut i: usize = 0;
        while i < self.0.len()
            invariant
                i <= self.0.len(),
                v@.map_values(|s: IdentOrPounded| s@) =~= self@.take(i as int),
            decreases self.0.len() - i,
        {
            let ghost before = v@;
            let d = self.0[i].duplicate();
            v.push(d);
            assert(v@.map_values(|s: IdentOrPounded| s@) =~= before.map_values(
                |s: IdentOrPounded| s@,
            ).push(d@));
            assert(self@.take(i + 1) =~= self@.take(i as int).push(self@[i as int]));
            i = i + 1;
        }
        assert(self@.take(self.0.len() as int) =~= self@);
        Path(v)
    }

    pub fn push(&mut self, value: IdentOrPounded)
        ensures
            final(self)@ == old(self)@.push(value@),
    {
        self.0.push(value);
        assert(self@ =~= old(self)@.push(value@));
    }

    /// Removes the last segment.
    pub fn pop(&mut self)
        requires
            old(self)@.len() > 0,
        ensures
            final(self)@ == old(self)@.drop_last(),
    {
        self.0.pop();
        assert(self@ =~= old(self)@.drop_last());
    }

    /// Removes the last segment where it is `self`, and says whether it did.
    pub fn pop_self(&mut self) -> (r: bool)
        ensures
            r == (old(self)@.len() > 0 && seg_is_self(old(self)@.last())),
            final(self)@ == if r { old(self)@.drop_last() } else { old(self)@ },
    {
        let n = self.0.len();
        if n > 0 && self.0[n - 1].is_self() {
            self.pop();
            true
        } else {
            false
        }
    }

    /// The last segment, where it is a name.
    pub fn get_ident(&self) -> (r: Option<&Ident>)
        requires
            self@.len() > 0,
        ensures
            match r {
                Some(i) => self@.last() == (Seg::Name { name: i.name@, span: i.span }),
                None => self@.last() is Placeholder,
            },
    {
        match &self.0[self.0.len() - 1] {
            IdentOrPounded::Ident(i) => Some(i),
            IdentOrPounded::Pounded(_, _) => None,
        }
    }

    /// Appends the path's tokens to `out`.
    pub fn to_tokens(&self, out: &mut Vec<TokenTree>)
        requires
            self@.len() > 0,
        ensures
            trees_view(final(out)@) == trees_view(old(out)@) + render(self@),
    {
        let ghost segs = self@;
        if self.0[0].is_ident() {
            push_colons(out);
        }
        self.0[0].to_tokens(out);
        let mut i: usize = 1;
        while i < self.0.len()
            invariant
                1 <= i <= self.0.len(),
                segs == self@,
                segs.len() > 0,
                trees_view(out@) == trees_view(old(out)@) + (if segs[0] is Name {
                    colons()
                } else {
                    Seq::empty()
                }) + seg_tokens(segs[0]) + joined(segs.subrange(1, i as int)),
            decreases self.0.len() - i,
        {
            push_colons(out);
            self.0[i].to_tokens(out);
            assert(segs.subrange(1, i + 1).drop_last() =~= segs.subrange(1, i as int));
            assert(trees_view(out@) =~= trees_view(old(out)@) + (if segs[0] is Name {
                colons()
            } else {
                Seq::empty()
            }) + seg_tokens(segs[0]) + joined(segs.subrange(1, i + 1)));
            i = i + 1;
        }
    }
}

} // verus!
