//! The rewriter: replaces each bare identifier that a binding names by the binding's path.
use vstd::prelude::*;
use crate::tokens::{
    lemma_trees_view_concat, lemma_trees_view_push, lemma_trees_view_take, trees_view, Delimiter,
    Spacing, Tok, TokenTree,
};
use crate::path::{render, uses_view, Binding, Seg, Use};

verus! {

/// Where the scan stands: after `::` has started, after a `#`, or elsewhere.
#[derive(Clone, Copy, Debug, PartialEq, Eq, Structural)]
pub enum ScanState {
    Path,
    Pound,
    Normal,
}

/// The path of the first binding of `name`.
pub open spec fn lookup(uses: Seq<Binding>, name: Seq<char>) -> Option<Seq<Seg>>
    decreases uses.len(),
{
    if uses.len() == 0 {
        None
    } else if uses[0].name == name {
        Some(uses[0].path)
    } else {
        lookup(uses.subrange(1, uses.len() as int), name)
    }
}

/// Every binding has a non-empty path.
pub open spec fn uses_wf(uses: Seq<Binding>) -> bool {
    forall|j: int| 0 <= j < uses.len() ==> #[trigger] uses[j].path.len() > 0
}

pub open spec fn next_state(t: Tok, st: ScanState) -> ScanState {
    match t {
        Tok::Punct { ch, spacing, .. } => if ch == ':' && spacing == Spacing::Joint {
            ScanState::Path
        } else if ch == ':' {
            st
        } else if ch == '#' {
            ScanState::Pound
        } else {
            ScanState::Normal
        },
        Tok::Group { .. } => st,
        _ => ScanState::Normal,
    }
}

/// The state after scanning `toks` from the start of a group.
pub open spec fn state_after(toks: Seq<Tok>) -> ScanState
    decreases toks.len(),
{
    if toks.len() == 0 {
        ScanState::Normal
    } else {
        next_state(toks.last(), state_after(toks.drop_last()))
    }
}

/// What one token becomes in state `st`.
pub open spec fn emit(uses: Seq<Binding>, t: Tok, st: ScanState) -> Seq<Tok>
    decreases t,
{
    match t {
        Tok::Ident { name, .. } => if st == ScanState::Normal && lookup(uses, name) is Some {
            render(lookup(uses, name)->0)
        } else {
            seq![t]
        },
        Tok::Group { delimiter, stream, span } => if delimiter == Delimiter::Invisible {
            rewrite(uses, stream)
        } else {
            seq![Tok::Group { delimiter, stream: rewrite(uses, stream), span }]
        },
        _ => seq![t],
    }
}

/// The rewritten form of a token sequence that starts a group.
pub open spec fn rewrite(uses: Seq<Binding>, toks: Seq<Tok>) -> Seq<Tok>
    decreases toks,
{
    if toks.len() == 0 {
        Seq::empty()
    } else {
        rewrite(uses, toks.subrange(0, toks.len() - 1)) + emit(
            uses,
            toks[toks.len() - 1],
            state_after(toks.subrange(0, toks.len() - 1)),
        )
    }
}

/// The index of the first binding of `name`, if any.
pub fn find_use(uses: &[Use], name: &String) -> (r: Option<usize>)
    ensures
        match r {
            Some(j) => j < uses@.len() && lookup(uses_view(uses@), name@) == Some(
                uses_view(uses@)[j as int].path,
            ),
            None => lookup(uses_view(uses@), name@) is None,
        },
{
    let ghost u = uses_view(uses@);
    assert(u.subrange(0, u.len() as int) =~= u);
    let mut i: usize = 0;
    while i < uses.len()
        invariant
            i <= uses@.len(),
            u == uses_view(uses@),
            lookup(u, name@) == lookup(u.subrange(i as int, u.len() as int), name@),
        decreases uses.len() - i,
    {
        let ghost rest = u.subrange(i as int, u.len() as int);
        assert(rest[0] == u[i as int]);
        if uses[i].1.name.eq(name) {
            return Some(i);
        }
        assert(rest.subrange(1, rest.len() as int) =~= u.subrange(i + 1, u.len() as int));
        i = i + 1;
    }
    None
}

/// Rewriting a sequence extended by one token extends the rewritten sequence by what
/// that token becomes in the state that the sequence leaves.
pub proof fn lemma_rewrite_push(uses: Seq<Binding>, s: Seq<Tok>, t: Tok)
    ensures
        rewrite(uses, s.push(t)) == rewrite(uses, s) + emit(uses, t, state_after(s)),
        state_after(s.push(t)) == next_state(t, state_after(s)),
{
    assert(s.push(t).subrange(0, s.len() as int) =~= s);
    assert(s.push(t).drop_last() =~= s);
}

/// Rewrites `tokens`, a sequence that starts a group: each identifier that stands
/// outside a path and after no `#` and that a binding names becomes the path of its
/// first binding; each group is rewritten inside, with its delimiter kept, and an
/// invisible group gives its contents alone.
pub fn replace_in_group(uses: &[Use], tokens: &Vec<TokenTree>) -> (r: Vec<TokenTree>)
    requires
        uses_wf(uses_view(uses@)),
    ensures
        trees_view(r@) == rewrite(uses_view(uses@), trees_view(tokens@)),
    decreases tokens,
{
    let ghost u = uses_view(uses@);
    let mut out: Vec<TokenTree> = Vec::new();
    let mut state = ScanState::Normal;
    let mut i: usize = 0;
    while i < tokens.len()
        invariant
            i <= tokens@.len(),
            u == uses_view(uses@),
            uses_wf(u),
            trees_view(out@) == rewrite(u, trees_view(tokens@.take(i as int))),
            state == state_after(trees_view(tokens@.take(i as int))),
        decreases tokens.len() - i,
    {
        proof {
            lemma_trees_view_take(tokens@, i as int);
            lemma_rewrite_push(u, trees_view(tokens@.take(i as int)), tokens@[i as int]@);
            vstd::std_specs::vec::axiom_vec_index_decreases(*tokens, i as int);
        }
        let ghost before = out@;
        match &tokens[i] {
            TokenTree::Ident(ident) => {
                let found = if state == ScanState::Normal {
                    find_use(uses, &ident.name)
                } else {
                    None
                };
                match found {
                    Some(j) => {
                        assert(u[j as int].path.len() > 0);
                        uses[j].0.to_tokens(&mut out);
                    },
                    None => {
                        let t = tokens[i].duplicate();
                        proof {
                            lemma_trees_view_push(out@, t);
                        }
                        out.push(t);
                    },
                }
                state = ScanState::Normal;
            },
            TokenTree::Group { delimiter, stream, span } => {
                let mut inner = replace_in_group(uses, stream);
                match delimiter {
                    Delimiter::Invisible => {
                        let ghost iv = inner@;
                        out.append(&mut inner);
                        proof {
                            lemma_trees_view_concat(before, iv);
                        }
                    },
                    _ => {
                        let g = TokenTree::Group { delimiter: *delimiter, stream: inner, span: *span };
                        proof {
                            lemma_trees_view_push(out@, g);
                        }
                        out.push(g);
                    },
                }
            },
            TokenTree::Punct { ch, spacing, .. } => {
                if *ch == ':' && *spacing == Spacing::Joint {
                    state = ScanState::Path;
                } else if *ch == ':' {
                } else if *ch == '#' {
                    state = ScanState::Pound;
                } else {
                    state = ScanState::Normal;
                }
                let t = tokens[i].duplicate();
                proof {
                    lemma_trees_view_push(out@, t);
                }
                out.push(t);
            },
            TokenTree::Literal { .. } => {
                state = ScanState::Normal;
                let t = tokens[i].duplicate();
                proof {
                    lemma_trees_view_push(out@, t);
                }
                out.push(t);
            },
        }
        i = i + 1;
    }
    assert(tokens@.take(tokens@.len() as int) =~= tokens@);
    out
}

} // verus!
