//! Properties of the rewriter and of the symbol table, stated over the specifications.
use vstd::prelude::*;
use crate::tokens::{Delimiter, Span, Spacing, Tok};
use crate::path::{colons, joined, render, Binding, Seg};
use crate::parse::{after, at_terminator, chain, group, pop_self, use_item, whole_use_item, SyntaxError};
use crate::path::seg_is_self;
use crate::rewrite::{emit, lemma_rewrite_push, lookup, rewrite, state_after, ScanState};
use crate::expand::{declares, explicit, symbol_table};

verus! {

/// No binding has the name.
pub open spec fn unbound(uses: Seq<Binding>, n: Seq<char>) -> bool {
    forall|j: int| 0 <= j < uses.len() ==> #[trigger] uses[j].name != n
}

/// No identifier of the token, at any depth, is bound, and it holds no invisible group.
pub open spec fn tok_untouched(uses: Seq<Binding>, t: Tok) -> bool
    decreases t,
{
    match t {
        Tok::Ident { name, .. } => unbound(uses, name),
        Tok::Group { delimiter, stream, .. } => delimiter != Delimiter::Invisible && toks_untouched(
            uses,
            stream,
        ),
        _ => true,
    }
}

pub open spec fn toks_untouched(uses: Seq<Binding>, toks: Seq<Tok>) -> bool
    decreases toks,
{
    if toks.len() == 0 {
        true
    } else {
        toks_untouched(uses, toks.subrange(0, toks.len() - 1)) && tok_untouched(
            uses,
            toks[toks.len() - 1],
        )
    }
}

/// A name that no binding has is looked up in vain.
pub proof fn lemma_lookup_unbound(uses: Seq<Binding>, n: Seq<char>)
    requires
        unbound(uses, n),
    ensures
        lookup(uses, n) is None,
    decreases uses.len(),
{
    if uses.len() > 0 {
        let rest = uses.subrange(1, uses.len() as int);
        assert(uses[0].name != n);
        assert forall|j: int| 0 <= j < rest.len() implies #[trigger] rest[j].name != n by {
            assert(rest[j] == uses[j + 1]);
        }
        lemma_lookup_unbound(rest, n);
    }
}

/// A tail in which no identifier matches a binding comes back token for token, with
/// its order and its groups kept.
pub proof fn lemma_rewrite_untouched(uses: Seq<Binding>, toks: Seq<Tok>)
    requires
        toks_untouched(uses, toks),
    ensures
        rewrite(uses, toks) == toks,
    decreases toks,
{
    if toks.len() > 0 {
        let init = toks.subrange(0, toks.len() - 1);
        let t = toks[toks.len() - 1];
        assert(toks_untouched(uses, init) && tok_untouched(uses, t));
        lemma_rewrite_untouched(uses, init);
        match t {
            Tok::Ident { name, .. } => {
                assert(unbound(uses, name));
                lemma_lookup_unbound(uses, name);
            },
            Tok::Group { delimiter, stream, span } => {
                assert(toks_untouched(uses, stream));
                lemma_rewrite_untouched(uses, stream);
            },
            _ => {},
        }
        assert(emit(uses, t, state_after(init)) == seq![t]);
        assert(toks =~= init + seq![t]);
    }
}

/// A group is rewritten inside as a sequence of its own, from a fresh state, and keeps
/// its delimiter and span, wherever it stands; an invisible group gives its contents.
pub proof fn lemma_group_fidelity(
    uses: Seq<Binding>,
    before: Seq<Tok>,
    delimiter: Delimiter,
    stream: Seq<Tok>,
    span: Span,
)
    ensures
        rewrite(uses, before.push(Tok::Group { delimiter, stream, span })) == rewrite(uses, before)
            + if delimiter == Delimiter::Invisible {
            rewrite(uses, stream)
        } else {
            seq![Tok::Group { delimiter, stream: rewrite(uses, stream), span }]
        },
        state_after(before.push(Tok::Group { delimiter, stream, span })) == state_after(before),
{
    let g = Tok::Group { delimiter, stream, span };
    lemma_rewrite_push(uses, before, g);
}

/// A `#` and the token after it come back as they are, even where that token is a
/// bound name.
pub proof fn lemma_placeholder_untouched(
    uses: Seq<Binding>,
    pound: Span,
    spacing: Spacing,
    name: Seq<char>,
    span: Span,
)
    ensures
        rewrite(
            uses,
            seq![Tok::Punct { ch: '#', spacing, span: pound }, Tok::Ident { name, span }],
        ) == seq![Tok::Punct { ch: '#', spacing, span: pound }, Tok::Ident { name, span }],
{
    let p = Tok::Punct { ch: '#', spacing, span: pound };
    let i = Tok::Ident { name, span };
    let a0 = Seq::<Tok>::empty();
    assert(rewrite(uses, a0) == a0);
    assert(state_after(a0) == ScanState::Normal);
    lemma_rewrite_push(uses, a0, p);
    lemma_rewrite_push(uses, a0.push(p), i);
    assert(rewrite(uses, a0.push(p)) =~= seq![p]);
    assert(a0.push(p).push(i) =~= seq![p, i]);
    assert(rewrite(uses, a0.push(p).push(i)) =~= seq![p, i]);
}

/// In `other::Name`, with `other` unbound, nothing is rewritten: the name after `::`
/// is part of a path that the caller wrote.
pub proof fn lemma_qualified_untouched(
    uses: Seq<Binding>,
    other: Seq<char>,
    s0: Span,
    s1: Span,
    spacing: Spacing,
    s2: Span,
    name: Seq<char>,
    s3: Span,
)
    requires
        unbound(uses, other),
    ensures
        ({
            let toks = seq![
                Tok::Ident { name: other, span: s0 },
                Tok::Punct { ch: ':', spacing: Spacing::Joint, span: s1 },
                Tok::Punct { ch: ':', spacing, span: s2 },
                Tok::Ident { name, span: s3 },
            ];
            rewrite(uses, toks) == toks
        }),
{
    let t0 = Tok::Ident { name: other, span: s0 };
    let t1 = Tok::Punct { ch: ':', spacing: Spacing::Joint, span: s1 };
    let t2 = Tok::Punct { ch: ':', spacing, span: s2 };
    let t3 = Tok::Ident { name, span: s3 };
    let toks = seq![t0, t1, t2, t3];
    lemma_lookup_unbound(uses, other);
    let a0 = Seq::<Tok>::empty();
    let a1 = a0.push(t0);
    let a2 = a1.push(t1);
    let a3 = a2.push(t2);
    let a4 = a3.push(t3);
    assert(rewrite(uses, a0) == a0);
    assert(state_after(a0) == ScanState::Normal);
    lemma_rewrite_push(uses, a0, t0);
    lemma_rewrite_push(uses, a1, t1);
    lemma_rewrite_push(uses, a2, t2);
    lemma_rewrite_push(uses, a3, t3);
    assert(state_after(a1) == ScanState::Normal);
    assert(state_after(a2) == ScanState::Path);
    assert(state_after(a3) == ScanState::Path);
    assert(rewrite(uses, a1) =~= a1);
    assert(rewrite(uses, a2) =~= a2);
    assert(rewrite(uses, a3) =~= a3);
    assert(rewrite(uses, a4) =~= a4);
    assert(a4 =~= toks);
}

proof fn lemma_lookup_prefix(a: Seq<Binding>, b: Seq<Binding>, n: Seq<char>)
    requires
        lookup(a, n) is Some,
    ensures
        lookup(a + b, n) == lookup(a, n),
    decreases a.len(),
{
    if a[0].name != n {
        assert((a + b).subrange(1, (a + b).len() as int) =~= a.subrange(1, a.len() as int) + b);
        lemma_lookup_prefix(a.subrange(1, a.len() as int), b, n);
    }
}

/// A name that a declaration binds is looked up there, and not in the prelude.
pub proof fn lemma_declaration_beats_prelude(uses: Seq<Binding>, n: Seq<char>)
    requires
        lookup(explicit(uses), n) is Some,
    ensures
        lookup(symbol_table(uses), n) == lookup(explicit(uses), n),
{
    let rest = if declares(uses, "no_prelude"@) {
        Seq::empty()
    } else {
        crate::prelude::prelude_bindings(!declares(uses, "no_std"@))
    };
    lemma_lookup_prefix(explicit(uses), rest, n);
}

/// Under `no_prelude` only the declarations bind: a name that none of them binds,
/// a name of the prelude too, stays as it is.
pub proof fn lemma_no_prelude(uses: Seq<Binding>, n: Seq<char>, span: Span)
    requires
        declares(uses, "no_prelude"@),
        lookup(explicit(uses), n) is None,
    ensures
        symbol_table(uses) == explicit(uses),
        rewrite(symbol_table(uses), seq![Tok::Ident { name: n, span }]) == seq![
            Tok::Ident { name: n, span },
        ],
{
    assert(symbol_table(uses) =~= explicit(uses));
    let t = Tok::Ident { name: n, span };
    let a0 = Seq::<Tok>::empty();
    assert(rewrite(symbol_table(uses), a0) == a0);
    lemma_rewrite_push(symbol_table(uses), a0, t);
    assert(a0.push(t) =~= seq![t]);
    assert(rewrite(symbol_table(uses), a0.push(t)) =~= seq![t]);
}

pub open spec fn ident(name: Seq<char>, span: Span) -> Tok {
    Tok::Ident { name, span }
}

pub open spec fn punct(ch: char, spacing: Spacing, span: Span) -> Tok {
    Tok::Punct { ch, spacing, span }
}

pub open spec fn name(n: Seq<char>, span: Span) -> Seg {
    Seg::Name { name: n, span }
}

/// The tokens of `use a::b::n` (without the `;`), with `sp` on each punctuation token.
pub open spec fn decl_abn(su: Span, a: Seq<char>, sa: Span, b: Seq<char>, sb: Span, n: Seq<char>, sn: Span, sp: Span) -> Seq<Tok> {
    seq![
        ident("use"@, su),
        ident(a, sa),
        punct(':', Spacing::Joint, sp),
        punct(':', Spacing::Alone, sp),
        ident(b, sb),
        punct(':', Spacing::Joint, sp),
        punct(':', Spacing::Alone, sp),
        ident(n, sn),
    ]
}

/// The path `::a::b::n`, rendered.
proof fn lemma_render_abn(a: Seq<char>, sa: Span, b: Seq<char>, sb: Span, n: Seq<char>, sn: Span)
    ensures
        render(seq![name(a, sa), name(b, sb), name(n, sn)]) == colons() + seq![ident(a, sa)]
            + colons() + seq![ident(b, sb)] + colons() + seq![ident(n, sn)],
{
    let p = seq![name(a, sa), name(b, sb), name(n, sn)];
    let rest = p.subrange(1, 3);
    assert(rest =~= seq![name(b, sb), name(n, sn)]);
    assert(rest.drop_last() =~= seq![name(b, sb)]);
    assert(seq![name(b, sb)].drop_last() =~= Seq::<Seg>::empty());
    assert(joined(Seq::<Seg>::empty()) == Seq::<Tok>::empty());
    assert(joined(seq![name(b, sb)]) =~= colons() + seq![ident(b, sb)]);
    assert(joined(rest) =~= colons() + seq![ident(b, sb)] + colons() + seq![ident(n, sn)]);
    assert(render(p) =~= colons() + seq![ident(a, sa)] + colons() + seq![ident(b, sb)] + colons()
        + seq![ident(n, sn)]);
}

/// The chain `a::b::n` from position 1 of `toks`, after which `after` decides.
proof fn lemma_chain_abn(
    toks: Seq<Tok>,
    su: Span,
    a: Seq<char>,
    sa: Span,
    b: Seq<char>,
    sb: Span,
    n: Seq<char>,
    sn: Span,
    sp: Span,
    end: Span,
)
    requires
        a != "self"@,
        b != "self"@,
        toks.len() > 8,
        toks.subrange(0, 8) == decl_abn(su, a, sa, b, sb, n, sn, sp),
    ensures
        chain(Seq::empty(), toks, 1, false, end) == after(
            seq![name(a, sa), name(b, sb), name(n, sn)],
            toks,
            8,
            false,
            end,
        ),
{
    let d = decl_abn(su, a, sa, b, sb, n, sn, sp);
    assert forall|i: int| 0 <= i < 8 implies toks[i] == #[trigger] d[i] by {
        assert(toks.subrange(0, 8)[i] == toks[i]);
    }
    let pa = Seq::<Seg>::empty().push(name(a, sa));
    let pab = pa.push(name(b, sb));
    let pabn = pab.push(name(n, sn));
    assert(pabn =~= seq![name(a, sa), name(b, sb), name(n, sn)]);
    assert(chain(pab, toks, 7, false, end) == after(pabn, toks, 8, false, end));
    assert(after(pab, toks, 5, false, end) == chain(pab, toks, 7, false, end));
    assert(chain(pa, toks, 4, false, end) == after(pab, toks, 5, false, end));
    assert(after(pa, toks, 2, false, end) == chain(pa, toks, 4, false, end));
    assert(chain(Seq::empty(), toks, 1, false, end) == after(pa, toks, 2, false, end));
}

/// `use a::b::n;` binds `n` to `::a::b::n`, and each bare `n` of a tail becomes
/// `::a::b::n`.
pub proof fn lemma_binding_correctness(
    su: Span,
    a: Seq<char>,
    sa: Span,
    b: Seq<char>,
    sb: Span,
    n: Seq<char>,
    sn: Span,
    sp: Span,
    tail: Seq<Tok>,
    i: int,
)
    requires
        a != "self"@,
        b != "self"@,
        n != "self"@,
        0 <= i < tail.len(),
        tail[i] is Ident,
        tail[i]->Ident_name == n,
        state_after(tail.take(i)) == ScanState::Normal,
    ensures
        ({
            let binding = Binding { path: seq![name(a, sa), name(b, sb), name(n, sn)], name: n, span: sn };
            &&& whole_use_item(decl_abn(su, a, sa, b, sb, n, sn, sp).push(
                punct(';', Spacing::Alone, sp),
            )) == Ok::<Seq<Binding>, crate::parse::SyntaxError>(seq![binding])
            &&& rewrite(seq![binding], tail.take(i + 1)) == rewrite(seq![binding], tail.take(i))
                + colons() + seq![ident(a, sa)] + colons() + seq![ident(b, sb)] + colons() + seq![
                ident(n, sn),
            ]
        }),
{
    let toks = decl_abn(su, a, sa, b, sb, n, sn, sp).push(punct(';', Spacing::Alone, sp));
    let path = seq![name(a, sa), name(b, sb), name(n, sn)];
    let binding = Binding { path, name: n, span: sn };
    let end = Span::spec_call_site();
    assert(toks.subrange(0, 8) =~= decl_abn(su, a, sa, b, sb, n, sn, sp));
    lemma_chain_abn(toks, su, a, sa, b, sb, n, sn, sp, end);
    assert(path.last() == name(n, sn));
    assert(crate::parse::pop_self(path) == path);
    assert(after(path, toks, 8, false, end) == Ok::<(Seq<Binding>, int), crate::parse::SyntaxError>((seq![binding], 8)));
    assert(use_item(toks, 0, end) == Ok::<(Seq<Binding>, int), crate::parse::SyntaxError>((seq![binding], 9)));
    assert(tail.take(i + 1) =~= tail.take(i).push(tail[i]));
    lemma_rewrite_push(seq![binding], tail.take(i), tail[i]);
    assert(lookup(seq![binding], n) == Some(path));
    lemma_render_abn(a, sa, b, sb, n, sn);
    assert(emit(seq![binding], tail[i], ScanState::Normal) == render(path));
}

/// `use a::b::n as o;` binds `o` to `::a::b::n`, and a bare `o` becomes `::a::b::n`.
pub proof fn lemma_alias(
    su: Span,
    a: Seq<char>,
    sa: Span,
    b: Seq<char>,
    sb: Span,
    n: Seq<char>,
    sn: Span,
    sp: Span,
    sas: Span,
    o: Seq<char>,
    so: Span,
    sx: Span,
)
    requires
        a != "self"@,
        b != "self"@,
        n != "self"@,
    ensures
        ({
            let binding = Binding { path: seq![name(a, sa), name(b, sb), name(n, sn)], name: o, span: so };
            &&& whole_use_item(decl_abn(su, a, sa, b, sb, n, sn, sp) + seq![
                ident("as"@, sas),
                ident(o, so),
                punct(';', Spacing::Alone, sp),
            ]) == Ok::<Seq<Binding>, crate::parse::SyntaxError>(seq![binding])
            &&& rewrite(seq![binding], seq![ident(o, sx)]) == colons() + seq![ident(a, sa)]
                + colons() + seq![ident(b, sb)] + colons() + seq![ident(n, sn)]
        }),
{
    let toks = decl_abn(su, a, sa, b, sb, n, sn, sp) + seq![
        ident("as"@, sas),
        ident(o, so),
        punct(';', Spacing::Alone, sp),
    ];
    let path = seq![name(a, sa), name(b, sb), name(n, sn)];
    let binding = Binding { path, name: o, span: so };
    let end = Span::spec_call_site();
    assert(toks.subrange(0, 8) =~= decl_abn(su, a, sa, b, sb, n, sn, sp));
    lemma_chain_abn(toks, su, a, sa, b, sb, n, sn, sp, end);
    assert(toks[8] == ident("as"@, sas));
    assert(toks[9] == ident(o, so));
    assert(toks[10] == punct(';', Spacing::Alone, sp));
    assert(path.last() == name(n, sn));
    assert(crate::parse::pop_self(path) == path);
    assert(after(path, toks, 8, false, end) == Ok::<(Seq<Binding>, int), crate::parse::SyntaxError>((seq![binding], 10)));
    assert(use_item(toks, 0, end) == Ok::<(Seq<Binding>, int), crate::parse::SyntaxError>((seq![binding], 11)));
    let a0 = Seq::<Tok>::empty();
    assert(rewrite(seq![binding], a0) == a0);
    lemma_rewrite_push(seq![binding], a0, ident(o, sx));
    assert(a0.push(ident(o, sx)) =~= seq![ident(o, sx)]);
    assert(lookup(seq![binding], o) == Some(path));
    lemma_render_abn(a, sa, b, sb, n, sn);
    assert(rewrite(seq![binding], seq![ident(o, sx)]) =~= render(path));
}

/// The tokens of `use a::b::{..};`, with the braces' contents given.
pub open spec fn decl_ab_group(su: Span, a: Seq<char>, sa: Span, b: Seq<char>, sb: Span, sp: Span, inner: Seq<Tok>, sg: Span) -> Seq<Tok> {
    seq![
        ident("use"@, su),
        ident(a, sa),
        punct(':', Spacing::Joint, sp),
        punct(':', Spacing::Alone, sp),
        ident(b, sb),
        punct(':', Spacing::Joint, sp),
        punct(':', Spacing::Alone, sp),
        Tok::Group { delimiter: Delimiter::Brace, stream: inner, span: sg },
        punct(';', Spacing::Alone, sp),
    ]
}

/// `use a::b::{..};` parses as the braces' contents do under the path `a::b`.
proof fn lemma_ab_group(su: Span, a: Seq<char>, sa: Span, b: Seq<char>, sb: Span, sp: Span, inner: Seq<Tok>, sg: Span)
    requires
        a != "self"@,
        b != "self"@,
    ensures
        whole_use_item(decl_ab_group(su, a, sa, b, sb, sp, inner, sg)) == group(
            seq![name(a, sa), name(b, sb)],
            inner,
            0,
            sg,
        ),
{
    let toks = decl_ab_group(su, a, sa, b, sb, sp, inner, sg);
    let end = Span::spec_call_site();
    let pa = Seq::<Seg>::empty().push(name(a, sa));
    let pab = pa.push(name(b, sb));
    assert(pab =~= seq![name(a, sa), name(b, sb)]);
    let g = group(pab, inner, 0, sg);
    assert(chain(pab, toks, 7, false, end) == match g {
        Ok(bs) => Ok((bs, 8)),
        Err(e) => Err::<(Seq<Binding>, int), SyntaxError>(e),
    });
    assert(after(pab, toks, 5, false, end) == chain(pab, toks, 7, false, end));
    assert(chain(pa, toks, 4, false, end) == after(pab, toks, 5, false, end));
    assert(after(pa, toks, 2, false, end) == chain(pa, toks, 4, false, end));
    assert(chain(Seq::empty(), toks, 1, false, end) == after(pa, toks, 2, false, end));
    assert(use_item(toks, 0, end) == match g {
        Ok(bs) => Ok((bs, 9)),
        Err(e) => Err::<(Seq<Binding>, int), SyntaxError>(e),
    });
}

/// In `use a::b::{x t};`, where `t` neither ends nor continues the chain `x`, the
/// declaration fails at `t`, the token where parsing stalled.
pub proof fn lemma_error_locality(
    su: Span,
    a: Seq<char>,
    sa: Span,
    b: Seq<char>,
    sb: Span,
    sp: Span,
    x: Seq<char>,
    sx: Span,
    t: Tok,
    sg: Span,
)
    requires
        a != "self"@,
        b != "self"@,
        !crate::parse::is_punct(t, ','),
        !crate::parse::is_ident_named(t, "as"@),
    ensures
        whole_use_item(decl_ab_group(su, a, sa, b, sb, sp, seq![ident(x, sx), t], sg)) == Err::<
            Seq<Binding>,
            SyntaxError,
        >(
            crate::parse::error(
                crate::parse::SyntaxErrorKind::UnterminatedDeclaration,
                true,
                crate::parse::tok_span(t),
            ),
        ),
{
    let inner = seq![ident(x, sx), t];
    let pab = seq![name(a, sa), name(b, sb)];
    assert(!crate::parse::is_colon2(inner, 1));
    assert(chain(pab, inner, 0, true, sg) == after(pab.push(name(x, sx)), inner, 1, true, sg));
    lemma_ab_group(su, a, sa, b, sb, sp, inner, sg);
}

/// `use a::b::{self, x};` binds `b` to `::a::b` and `x` to `::a::b::x`; in a tail,
/// `b::f()` becomes `::a::b::f()`.
pub proof fn lemma_self_in_group(
    su: Span,
    a: Seq<char>,
    sa: Span,
    b: Seq<char>,
    sb: Span,
    sp: Span,
    ss: Span,
    x: Seq<char>,
    sx: Span,
    sg: Span,
    sb2: Span,
    f: Seq<char>,
    sf: Span,
    sc: Span,
)
    requires
        a != "self"@,
        b != "self"@,
        x != "self"@,
    ensures
        ({
            let inner = seq![ident("self"@, ss), punct(',', Spacing::Alone, sp), ident(x, sx)];
            let bindings = seq![
                Binding { path: seq![name(a, sa), name(b, sb)], name: b, span: sb },
                Binding { path: seq![name(a, sa), name(b, sb), name(x, sx)], name: x, span: sx },
            ];
            let call = Tok::Group { delimiter: Delimiter::Parenthesis, stream: Seq::empty(), span: sc };
            let rest = seq![
                punct(':', Spacing::Joint, sp),
                punct(':', Spacing::Alone, sp),
                ident(f, sf),
                call,
            ];
            &&& whole_use_item(decl_ab_group(su, a, sa, b, sb, sp, inner, sg)) == Ok::<
                Seq<Binding>,
                SyntaxError,
            >(bindings)
            &&& rewrite(bindings, seq![ident(b, sb2)] + rest) == colons() + seq![ident(a, sa)]
                + colons() + seq![ident(b, sb)] + rest
        }),
{
    let inner = seq![ident("self"@, ss), punct(',', Spacing::Alone, sp), ident(x, sx)];
    let pab = seq![name(a, sa), name(b, sb)];
    let b1 = Binding { path: pab, name: b, span: sb };
    let b2 = Binding { path: seq![name(a, sa), name(b, sb), name(x, sx)], name: x, span: sx };
    let bindings = seq![b1, b2];
    assert(pab.push(name("self"@, ss)).drop_last() =~= pab);
    assert(crate::parse::pop_self(pab.push(name("self"@, ss))) == pab);
    assert(after(pab.push(name("self"@, ss)), inner, 1, true, sg) == Ok::<(Seq<Binding>, int), SyntaxError>((seq![b1], 1)));
    assert(chain(pab, inner, 0, true, sg) == Ok::<(Seq<Binding>, int), SyntaxError>((seq![b1], 1)));
    assert(pab.push(name(x, sx)) =~= seq![name(a, sa), name(b, sb), name(x, sx)]);
    assert(crate::parse::pop_self(pab.push(name(x, sx))) == pab.push(name(x, sx)));
    assert(after(pab.push(name(x, sx)), inner, 3, true, sg) == Ok::<(Seq<Binding>, int), SyntaxError>((seq![b2], 3)));
    assert(chain(pab, inner, 2, true, sg) == Ok::<(Seq<Binding>, int), SyntaxError>((seq![b2], 3)));
    assert(group(pab, inner, 2, sg) == Ok::<Seq<Binding>, SyntaxError>(seq![b2]));
    assert(seq![b1] + seq![b2] =~= bindings);
    assert(group(pab, inner, 0, sg) == Ok::<Seq<Binding>, SyntaxError>(bindings));
    lemma_ab_group(su, a, sa, b, sb, sp, inner, sg);

    let call = Tok::Group { delimiter: Delimiter::Parenthesis, stream: Seq::empty(), span: sc };
    let t0 = ident(b, sb2);
    let t1 = punct(':', Spacing::Joint, sp);
    let t2 = punct(':', Spacing::Alone, sp);
    let t3 = ident(f, sf);
    let a0 = Seq::<Tok>::empty();
    let a1 = a0.push(t0);
    let a2 = a1.push(t1);
    let a3 = a2.push(t2);
    let a4 = a3.push(t3);
    let a5 = a4.push(call);
    assert(rewrite(bindings, a0) == a0);
    assert(state_after(a0) == ScanState::Normal);
    lemma_rewrite_push(bindings, a0, t0);
    lemma_rewrite_push(bindings, a1, t1);
    lemma_rewrite_push(bindings, a2, t2);
    lemma_rewrite_push(bindings, a3, t3);
    lemma_rewrite_push(bindings, a4, call);
    assert(lookup(bindings, b) == Some(pab));
    assert(pab.subrange(1, 2) =~= seq![name(b, sb)]);
    assert(seq![name(b, sb)].drop_last() =~= Seq::<Seg>::empty());
    assert(joined(Seq::<Seg>::empty()) == Seq::<Tok>::empty());
    assert(render(pab) =~= colons() + seq![ident(a, sa)] + colons() + seq![ident(b, sb)]);
    assert(rewrite(bindings, Seq::<Tok>::empty()) == Seq::<Tok>::empty());
    assert(a5 =~= seq![ident(b, sb2)] + seq![t1, t2, t3, call]);
    assert(rewrite(bindings, a5) =~= colons() + seq![ident(a, sa)] + colons() + seq![ident(b, sb)]
        + seq![t1, t2, t3, call]);
}

/// `use a::b::{self as c};` binds `c` to `::a::b`.
pub proof fn lemma_self_alias(
    su: Span,
    a: Seq<char>,
    sa: Span,
    b: Seq<char>,
    sb: Span,
    sp: Span,
    ss: Span,
    sas: Span,
    c: Seq<char>,
    sc: Span,
    sg: Span,
)
    requires
        a != "self"@,
        b != "self"@,
    ensures
        whole_use_item(
            decl_ab_group(
                su,
                a,
                sa,
                b,
                sb,
                sp,
                seq![ident("self"@, ss), ident("as"@, sas), ident(c, sc)],
                sg,
            ),
        ) == Ok::<Seq<Binding>, SyntaxError>(
            seq![Binding { path: seq![name(a, sa), name(b, sb)], name: c, span: sc }],
        ),
{
    let inner = seq![ident("self"@, ss), ident("as"@, sas), ident(c, sc)];
    let pab = seq![name(a, sa), name(b, sb)];
    let b1 = Binding { path: pab, name: c, span: sc };
    assert(pab.push(name("self"@, ss)).drop_last() =~= pab);
    assert(crate::parse::pop_self(pab.push(name("self"@, ss))) == pab);
    assert(after(pab.push(name("self"@, ss)), inner, 1, true, sg) == Ok::<(Seq<Binding>, int), SyntaxError>((seq![b1], 3)));
    assert(chain(pab, inner, 0, true, sg) == Ok::<(Seq<Binding>, int), SyntaxError>((seq![b1], 3)));
    assert(group(pab, inner, 0, sg) == Ok::<Seq<Binding>, SyntaxError>(seq![b1]));
    lemma_ab_group(su, a, sa, b, sb, sp, inner, sg);
}

pub open spec fn name_tok(s: Seg) -> Tok {
    match s {
        Seg::Name { name, span } => Tok::Ident { name, span },
        Seg::Placeholder { token, .. } => token,
    }
}

/// The tokens of the chain `n1::...::nk`, with `sp` on each `::`.
pub open spec fn chain_tokens(segs: Seq<Seg>, sp: Span) -> Seq<Tok>
    decreases segs.len(),
{
    if segs.len() == 0 {
        Seq::empty()
    } else if segs.len() == 1 {
        seq![name_tok(segs[0])]
    } else {
        seq![name_tok(segs[0]), punct(':', Spacing::Joint, sp), punct(':', Spacing::Alone, sp)]
            + chain_tokens(segs.subrange(1, segs.len() as int), sp)
    }
}

/// The names of a chain, none of them `self` but perhaps the last.
pub open spec fn plain_chain(segs: Seq<Seg>) -> bool {
    &&& segs.len() >= 1
    &&& forall|i: int| 0 <= i < segs.len() ==> #[trigger] segs[i] is Name
    &&& forall|i: int| 0 <= i < segs.len() - 1 ==> !seg_is_self(#[trigger] segs[i])
}

/// `toks` holds the chain's tokens from `pos` on.
pub open spec fn chain_at(toks: Seq<Tok>, pos: int, segs: Seq<Seg>, sp: Span) -> bool {
    &&& 0 <= pos
    &&& pos + 3 * segs.len() - 2 <= toks.len()
    &&& forall|j: int|
        0 <= j < 3 * segs.len() - 2 ==> toks[pos + j] == #[trigger] chain_tokens(segs, sp)[j]
}

proof fn lemma_chain_tokens_len(segs: Seq<Seg>, sp: Span)
    requires
        segs.len() >= 1,
    ensures
        chain_tokens(segs, sp).len() == 3 * segs.len() - 2,
    decreases segs.len(),
{
    if segs.len() > 1 {
        lemma_chain_tokens_len(segs.subrange(1, segs.len() as int), sp);
    }
}

/// A chain of names reads as its path: the parse goes on after its last name with the
/// parent path extended by all of them.
pub proof fn lemma_plain_chain(
    parent: Seq<Seg>,
    segs: Seq<Seg>,
    sp: Span,
    toks: Seq<Tok>,
    pos: int,
    inner: bool,
    end: Span,
)
    requires
        plain_chain(segs),
        chain_at(toks, pos, segs, sp),
    ensures
        chain(parent, toks, pos, inner, end) == after(
            parent + segs,
            toks,
            pos + 3 * segs.len() - 2,
            inner,
            end,
        ),
    decreases segs.len(),
{
    lemma_chain_tokens_len(segs, sp);
    let c = chain_tokens(segs, sp);
    assert(toks[pos] == c[0]);
    assert(segs[0] is Name);
    let p1 = parent.push(segs[0]);
    assert(chain(parent, toks, pos, inner, end) == after(p1, toks, pos + 1, inner, end));
    if segs.len() == 1 {
        assert(p1 =~= parent + segs);
    } else {
        let rest = segs.subrange(1, segs.len() as int);
        lemma_chain_tokens_len(rest, sp);
        assert(toks[pos + 1] == c[1]);
        assert(toks[pos + 2] == c[2]);
        assert(!seg_is_self(segs[0]));
        assert(after(p1, toks, pos + 1, inner, end) == chain(p1, toks, pos + 3, inner, end));
        assert forall|i: int| 0 <= i < rest.len() implies #[trigger] rest[i] is Name by {
            assert(rest[i] == segs[i + 1]);
        }
        assert forall|i: int| 0 <= i < rest.len() - 1 implies !seg_is_self(#[trigger] rest[i]) by {
            assert(rest[i] == segs[i + 1]);
        }
        assert forall|j: int| 0 <= j < 3 * rest.len() - 2 implies toks[pos + 3 + j]
            == #[trigger] chain_tokens(rest, sp)[j] by {
            assert(c[j + 3] == chain_tokens(rest, sp)[j]);
            assert(toks[pos + (j + 3)] == c[j + 3]);
        }
        lemma_plain_chain(p1, rest, sp, toks, pos + 3, inner, end);
        assert(p1 + rest =~= parent + segs);
    }
}

/// A chain of names that the declaration or the braces end binds its path under the
/// path's own last name; a chain that ends in `self` binds the path before it under
/// that path's last name.
pub proof fn lemma_chain_binding(
    parent: Seq<Seg>,
    segs: Seq<Seg>,
    sp: Span,
    toks: Seq<Tok>,
    pos: int,
    inner: bool,
    end: Span,
)
    requires
        plain_chain(segs),
        chain_at(toks, pos, segs, sp),
        at_terminator(toks, pos + 3 * segs.len() - 2, inner),
        pop_self(parent + segs).len() > 0,
        pop_self(parent + segs).last() is Name,
    ensures
        ({
            let bound = pop_self(parent + segs);
            chain(parent, toks, pos, inner, end) == Ok::<(Seq<Binding>, int), SyntaxError>(
                (
                    seq![
                        Binding {
                            path: bound,
                            name: bound.last()->Name_name,
                            span: bound.last()->Name_span,
                        },
                    ],
                    pos + 3 * segs.len() - 2,
                ),
            )
        }),
{
    lemma_plain_chain(parent, segs, sp, toks, pos, inner, end);
}

/// `n1::...::nk as o`, ended by the declaration or the braces, binds `o` to the path
/// (without a last `self`).
pub proof fn lemma_chain_alias(
    parent: Seq<Seg>,
    segs: Seq<Seg>,
    sp: Span,
    toks: Seq<Tok>,
    pos: int,
    sas: Span,
    o: Seq<char>,
    so: Span,
    inner: bool,
    end: Span,
)
    requires
        plain_chain(segs),
        chain_at(toks, pos, segs, sp),
        pos + 3 * segs.len() < toks.len(),
        toks[pos + 3 * segs.len() - 2] == ident("as"@, sas),
        toks[pos + 3 * segs.len() - 1] == ident(o, so),
        at_terminator(toks, pos + 3 * segs.len(), inner),
        pop_self(parent + segs).len() > 0,
    ensures
        chain(parent, toks, pos, inner, end) == Ok::<(Seq<Binding>, int), SyntaxError>(
            (
                seq![Binding { path: pop_self(parent + segs), name: o, span: so }],
                pos + 3 * segs.len(),
            ),
        ),
{
    lemma_plain_chain(parent, segs, sp, toks, pos, inner, end);
}

/// The scan of `s` does not end inside a path or right after `#`: the last token that is
/// neither a group nor a lone `:` is not a joint `:` (the first half of `::`) nor `#`.
pub open spec fn ends_bare(s: Seq<Tok>) -> bool
    decreases s.len(),
{
    if s.len() == 0 {
        true
    } else {
        match s.last() {
            Tok::Group { .. } => ends_bare(s.drop_last()),
            Tok::Punct { ch, spacing, .. } => if ch == ':' && spacing == Spacing::Joint {
                false
            } else if ch == ':' {
                ends_bare(s.drop_last())
            } else {
                ch != '#'
            },
            _ => true,
        }
    }
}

/// `toks` with each bare `n` replaced by `r`, at every depth; all else kept in place.
pub open spec fn replace_bare(toks: Seq<Tok>, n: Seq<char>, r: Seq<Tok>) -> Seq<Tok>
    decreases toks,
{
    if toks.len() == 0 {
        Seq::empty()
    } else {
        let init = toks.subrange(0, toks.len() - 1);
        let t = toks[toks.len() - 1];
        replace_bare(init, n, r) + match t {
            Tok::Ident { name, .. } => if name == n && ends_bare(init) {
                r
            } else {
                seq![t]
            },
            Tok::Group { delimiter, stream, span } => seq![
                Tok::Group { delimiter, stream: replace_bare(stream, n, r), span },
            ],
            _ => seq![t],
        }
    }
}

/// The token holds no group without visible delimiters, at any depth.
pub open spec fn tok_visible(t: Tok) -> bool
    decreases t,
{
    match t {
        Tok::Group { delimiter, stream, .. } => delimiter != Delimiter::Invisible && toks_visible(
            stream,
        ),
        _ => true,
    }
}

pub open spec fn toks_visible(toks: Seq<Tok>) -> bool
    decreases toks,
{
    if toks.len() == 0 {
        true
    } else {
        toks_visible(toks.subrange(0, toks.len() - 1)) && tok_visible(toks[toks.len() - 1])
    }
}

/// The scan is in its normal state exactly where the sequence ends bare.
pub proof fn lemma_normal_iff_bare(s: Seq<Tok>)
    ensures
        (state_after(s) == ScanState::Normal) == ends_bare(s),
    decreases s.len(),
{
    if s.len() > 0 {
        lemma_normal_iff_bare(s.drop_last());
    }
}

/// Under the single binding of `n` to `path`, a tail with no invisible group comes back
/// with each bare `n` replaced by the rendered path, and every other token, the order
/// and the grouping unchanged.
pub proof fn lemma_single_binding_tail(n: Seq<char>, path: Seq<Seg>, span: Span, toks: Seq<Tok>)
    requires
        toks_visible(toks),
    ensures
        rewrite(seq![Binding { path, name: n, span }], toks) == replace_bare(toks, n, render(path)),
    decreases toks,
{
    let u = seq![Binding { path, name: n, span }];
    if toks.len() > 0 {
        let init = toks.subrange(0, toks.len() - 1);
        let t = toks[toks.len() - 1];
        assert(toks_visible(init) && tok_visible(t));
        lemma_single_binding_tail(n, path, span, init);
        lemma_normal_iff_bare(init);
        assert(init =~= toks.drop_last());
        match t {
            Tok::Ident { name, .. } => {
                assert(u.subrange(1, 1) =~= Seq::<Binding>::empty());
                assert(lookup(Seq::<Binding>::empty(), name) is None);
                assert(lookup(u, name) == if name == n {
                    Some(path)
                } else {
                    None
                });
            },
            Tok::Group { delimiter, stream, span: gs } => {
                assert(toks_visible(stream));
                lemma_single_binding_tail(n, path, span, stream);
            },
            _ => {},
        }
        assert(rewrite(u, toks) == rewrite(u, init) + emit(u, t, state_after(init)));
    }
}

} // verus!
