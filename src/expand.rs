//! The whole expansion: declarations at the head of the input, then the rewritten tail.
use vstd::prelude::*;
use crate::tokens::{duplicate_all, lemma_trees_view_concat, lemma_trees_view_push,
    trees_view, Delimiter, Ident, Span, Spacing, Tok, TokenTree};
use crate::path::{name_is, uses_view, Binding, Use, UseItem};
use crate::parse::{is_ident_named, is_punct, use_item, SyntaxError};
use crate::prelude::{prelude, prelude_bindings};
use crate::rewrite::{replace_in_group, rewrite, uses_wf};

verus! {

/// The declarations `# use ...;` from `pos` on: their bindings, in order, and the
/// position of the first token after them.
pub open spec fn decls(toks: Seq<Tok>, pos: int) -> Result<(Seq<Binding>, int), SyntaxError>
    decreases toks.len() - pos,
{
    if 0 <= pos && pos + 1 < toks.len() && is_punct(toks[pos], '#') && is_ident_named(
        toks[pos + 1],
        "use"@,
    ) {
        match use_item(toks, pos + 1, Span::spec_call_site()) {
            Ok((b, q)) => if q > pos + 1 {
                match decls(toks, q) {
                    Ok((b2, q2)) => Ok((b + b2, q2)),
                    Err(e) => Err(e),
                }
            } else {
                Ok((b, q))
            },
            Err(e) => Err(e),
        }
    } else {
        Ok((Seq::empty(), pos))
    }
}

/// The two declarations that are no bindings: `no_prelude` turns the prelude off,
/// `no_std` keeps only the prelude of `core`.
pub open spec fn is_sentinel(b: Binding) -> bool {
    b.name == "no_prelude"@ || b.name == "no_std"@
}

/// The bindings that are not sentinels, in order.
pub open spec fn explicit(uses: Seq<Binding>) -> Seq<Binding>
    decreases uses.len(),
{
    if uses.len() == 0 {
        Seq::empty()
    } else if is_sentinel(uses.last()) {
        explicit(uses.drop_last())
    } else {
        explicit(uses.drop_last()).push(uses.last())
    }
}

pub open spec fn declares(uses: Seq<Binding>, n: Seq<char>) -> bool {
    exists|j: int| 0 <= j < uses.len() && #[trigger] uses[j].name == n
}

/// The bindings that the rewriter consults, highest priority first: the declared
/// ones, then the prelude unless a sentinel turns it off.
pub open spec fn symbol_table(uses: Seq<Binding>) -> Seq<Binding> {
    explicit(uses) + if declares(uses, "no_prelude"@) {
        Seq::empty()
    } else {
        prelude_bindings(!declares(uses, "no_std"@))
    }
}

proof fn lemma_declares_push(s: Seq<Binding>, b: Binding, n: Seq<char>)
    ensures
        declares(s.push(b), n) == (declares(s, n) || b.name == n),
{
    if declares(s.push(b), n) && b.name != n {
        let j = choose|j: int| 0 <= j < s.len() + 1 && #[trigger] s.push(b)[j].name == n;
        assert(s[j].name == n);
    }
    if declares(s, n) {
        let j = choose|j: int| 0 <= j < s.len() && #[trigger] s[j].name == n;
        assert(s.push(b)[j].name == n);
    }
    if b.name == n {
        assert(s.push(b)[s.len() as int].name == n);
    }
}

/// Declarations and the tail that they apply to.
pub struct QuoteUse(pub Vec<Use>, pub Vec<TokenTree>);

proof fn lemma_view_suffix(s: Seq<TokenTree>, p: int)
    requires
        0 <= p <= s.len(),
    ensures
        trees_view(s.subrange(p, s.len() as int)) == trees_view(s).subrange(p, s.len() as int),
{
    assert(s =~= s.subrange(0, p) + s.subrange(p, s.len() as int));
    lemma_trees_view_concat(s.subrange(0, p), s.subrange(p, s.len() as int));
    crate::tokens::lemma_trees_view_len(s.subrange(0, p));
    crate::tokens::lemma_trees_view_len(s.subrange(p, s.len() as int));
    assert(trees_view(s).subrange(p, s.len() as int) =~= trees_view(s.subrange(p, s.len() as int)));
}

impl QuoteUse {
    /// Parses the declarations at the head of `input` and keeps the rest as the tail.
    pub fn parse(input: &Vec<TokenTree>) -> (r: Result<QuoteUse, SyntaxError>)
        ensures
            match decls(trees_view(input@), 0) {
                Ok((b, p)) => {
                    &&& r is Ok
                    &&& uses_view(r->Ok_0.0@) == b
                    &&& trees_view(r->Ok_0.1@) == trees_view(input@).subrange(p, input@.len() as int)
                },
                Err(e) => r == Err::<QuoteUse, SyntaxError>(e),
            },
            r is Ok ==> uses_wf(uses_view(r->Ok_0.0@)),
    {
        let ghost t = trees_view(input@);
        proof {
            crate::tokens::lemma_trees_view_len(input@);
        }
        let mut uses: Vec<Use> = Vec::new();
        let ghost mut acc: Seq<Binding> = Seq::empty();
        let ghost whole = decls(t, 0);
        let mut pos: usize = 0;
        assert(acc + Seq::<Binding>::empty() =~= acc);
        loop
            invariant
                pos <= input@.len(),
                t == trees_view(input@),
                t.len() == input@.len(),
                whole == decls(t, 0),
                whole == match decls(t, pos as int) {
                    Ok((b, q)) => Ok((acc + b, q)),
                    Err(e) => Err(e),
                },
                uses_view(uses@) == acc,
                uses_wf(acc),
            ensures
                pos <= input@.len(),
                whole == match decls(t, pos as int) {
                    Ok((b, q)) => Ok((acc + b, q)),
                    Err(e) => Err(e),
                },
                decls(t, pos as int) == Ok::<(Seq<Binding>, int), SyntaxError>(
                    (Seq::empty(), pos as int),
                ),
                uses_view(uses@) == acc,
                uses_wf(acc),
            decreases input@.len() - pos,
        {
            proof {
                crate::tokens::lemma_view_all(input@);
            }
            let more = pos < input.len() && pos + 1 < input.len() && match &input[pos] {
                TokenTree::Punct { ch, .. } => *ch == '#',
                _ => false,
            } && match &input[pos + 1] {
                TokenTree::Ident(i) => name_is(&i.name, "use"),
                _ => false,
            };
            if !more {
                break;
            }
            match UseItem::parse(input, pos + 1, Span::call_site()) {
                Err(e) => {
                    return Err(e);
                },
                Ok((item, q)) => {
                    let ghost b = uses_view(item.0@);
                    let ghost old_acc = acc;
                    let mut item_uses = item.0;
                    uses.append(&mut item_uses);
                    proof {
                        assert(uses_view(uses@) =~= acc + b);
                        acc = acc + b;
                        let rest = decls(t, q as int);
                        if rest is Ok {
                            assert(old_acc + (b + rest->Ok_0.0) =~= acc + rest->Ok_0.0);
                        }
                    }
                    pos = q;
                },
            }
        }
        assert(acc + Seq::<Binding>::empty() =~= acc);
        assert(decls(t, pos as int) == Ok::<(Seq<Binding>, int), SyntaxError>((Seq::empty(), pos as int)));
        let tail = duplicate_all(&suffix(input, pos));
        proof {
            lemma_view_suffix(input@, pos as int);
        }
        Ok(QuoteUse(uses, tail))
    }

    /// Appends the tail, rewritten under the symbol table of the declarations, to
    /// `tokens`.
    pub fn to_tokens(&self, tokens: &mut Vec<TokenTree>)
        requires
            uses_wf(uses_view(self.0@)),
        ensures
            trees_view(final(tokens)@) == trees_view(old(tokens)@) + rewrite(
                symbol_table(uses_view(self.0@)),
                trees_view(self.1@),
            ),
    {
        let ghost u = uses_view(self.0@);
        let mut with_prelude = true;
        let mut std = true;
        let mut uses: Vec<Use> = Vec::new();
        let mut i: usize = 0;
        while i < self.0.len()
            invariant
                i <= self.0@.len(),
                u == uses_view(self.0@),
                uses_wf(u),
                uses_view(uses@) == explicit(u.take(i as int)),
                uses_wf(uses_view(uses@)),
                with_prelude == !declares(u.take(i as int), "no_prelude"@),
                std == !declares(u.take(i as int), "no_std"@),
            decreases self.0.len() - i,
        {
            let item = &self.0[i];
            let ghost taken = u.take(i as int);
            proof {
                assert(u.take(i + 1) =~= taken.push(u[i as int]));
                lemma_declares_push(taken, u[i as int], "no_prelude"@);
                lemma_declares_push(taken, u[i as int], "no_std"@);
                reveal_strlit("no_prelude");
                reveal_strlit("no_std");
                assert(explicit(u.take(i + 1)) == if is_sentinel(u[i as int]) {
                    explicit(taken)
                } else {
                    explicit(taken).push(u[i as int])
                }) by {
                    assert(u.take(i + 1).drop_last() =~= taken);
                }
            }
            if name_is(&item.1.name, "no_prelude") {
                with_prelude = false;
                assert("no_prelude"@.len() != "no_std"@.len());
            } else if name_is(&item.1.name, "no_std") {
                std = false;
            } else {
                let d = Use(item.0.duplicate(), Ident { name: item.1.name.clone(), span: item.1.span });
                let ghost before = uses@;
                uses.push(d);
                assert(uses_view(uses@) =~= uses_view(before).push(d@));
            }
            i = i + 1;
        }
        assert(u.take(self.0@.len() as int) =~= u);
        if with_prelude {
            let mut p = prelude(std);
            let ghost before = uses_view(uses@);
            uses.append(&mut p);
            assert(uses_view(uses@) =~= before + prelude_bindings(std));
        } else {
            assert(uses_view(uses@) =~= uses_view(uses@) + Seq::<Binding>::empty());
        }
        assert(uses_view(uses@) == symbol_table(u));
        let mut out = replace_in_group(uses.as_slice(), &self.1);
        let ghost before = tokens@;
        let ghost o = out@;
        tokens.append(&mut out);
        proof {
            lemma_trees_view_concat(before, o);
        }
    }
}

/// A copy of the tokens of `input` from `p` on.
fn suffix(input: &Vec<TokenTree>, p: usize) -> (r: Vec<TokenTree>)
    requires
        p <= input@.len(),
    ensures
        trees_view(r@) == trees_view(input@.subrange(p as int, input@.len() as int)),
{
    let mut r: Vec<TokenTree> = Vec::new();
    let mut i: usize = p;
    while i < input.len()
        invariant
            p <= i <= input@.len(),
            trees_view(r@) == trees_view(input@.subrange(p as int, i as int)),
        decreases input.len() - i,
    {
        let t = input[i].duplicate();
        proof {
            lemma_trees_view_push(r@, t);
            assert(input@.subrange(p as int, i + 1) =~= input@.subrange(p as int, i as int).push(
                input@[i as int],
            ));
            lemma_trees_view_push(input@.subrange(p as int, i as int), input@[i as int]);
        }
        r.push(t);
        i = i + 1;
    }
    r
}

pub open spec fn group_stream(t: Tok) -> Seq<Tok> {
    match t {
        Tok::Group { stream, .. } => stream,
        _ => Seq::empty(),
    }
}

/// The call `path! { span body' }`, where `body'` is the tail of `body` rewritten
/// under the symbol table of the declarations at its head.
pub open spec fn expansion(path: Seq<Tok>, span: Seq<Tok>, body: Seq<Tok>) -> Result<
    Seq<Tok>,
    SyntaxError,
> {
    match decls(body, 0) {
        Ok((b, p)) => Ok(
            path + seq![
                Tok::Punct { ch: '!', spacing: Spacing::Alone, span: Span::spec_call_site() },
                Tok::Group {
                    delimiter: Delimiter::Brace,
                    stream: span + rewrite(symbol_table(b), body.subrange(p, body.len() as int)),
                    span: Span::spec_call_site(),
                },
            ],
        ),
        Err(e) => Err(e),
    }
}

/// A copy of the contents of a group.
fn contents(t: &TokenTree) -> (r: Vec<TokenTree>)
    ensures
        trees_view(r@) == group_stream(t@),
{
    match t {
        TokenTree::Group { stream, .. } => duplicate_all(stream),
        _ => {
            let v: Vec<TokenTree> = Vec::new();
            assert(trees_view(v@) =~= Seq::<Tok>::empty());
            v
        },
    }
}

/// Expands `(path) (span) (body)`: the call of the quoting macro `path` on `span`
/// and on the tail of `body`, rewritten under the declarations at its head.
pub fn quote_use_impl(input: &Vec<TokenTree>) -> (r: Result<Vec<TokenTree>, SyntaxError>)
    requires
        input@.len() >= 3,
        input@[0] is Group,
        input@[1] is Group,
        input@[2] is Group,
    ensures
        match expansion(
            group_stream(input@[0]@),
            group_stream(input@[1]@),
            group_stream(input@[2]@),
        ) {
            Ok(v) => r is Ok && trees_view(r->Ok_0@) == v,
            Err(e) => r == Err::<Vec<TokenTree>, SyntaxError>(e),
        },
{
    let mut out = contents(&input[0]);
    let mut inner = contents(&input[1]);
    let body = contents(&input[2]);
    let parsed = match QuoteUse::parse(&body) {
        Ok(q) => q,
        Err(e) => {
            return Err(e);
        },
    };
    let ghost before = inner@;
    parsed.to_tokens(&mut inner);
    let bang = TokenTree::Punct { ch: '!', spacing: Spacing::Alone, span: Span::call_site() };
    proof {
        lemma_trees_view_push(out@, bang);
    }
    out.push(bang);
    let g = TokenTree::Group { delimiter: Delimiter::Brace, stream: inner, span: Span::call_site() };
    proof {
        lemma_trees_view_push(out@, g);
    }
    out.push(g);
    let ghost b = group_stream(input@[2]@);
    proof {
        crate::tokens::lemma_trees_view_len(body@);
    }
    assert(decls(b, 0) is Ok);
    let ghost p = decls(b, 0)->Ok_0.1;
    assert(trees_view(inner@) == group_stream(input@[1]@) + rewrite(
        symbol_table(decls(b, 0)->Ok_0.0),
        b.subrange(p, b.len() as int),
    ));
    assert(trees_view(out@) =~= expansion(
        group_stream(input@[0]@),
        group_stream(input@[1]@),
        b,
    )->Ok_0);
    Ok(out)
}

} // verus!
