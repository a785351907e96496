//! The declaration parser: `use` declarations to bindings.
use vstd::prelude::*;
use crate::tokens::{lemma_view_all, trees_view, Delimiter, Ident, Span, Spacing, Tok, TokenTree};
use crate::rewrite::uses_wf;
use crate::path::{
    name_is, seg_is_self, uses_view, Binding, IdentOrPounded, Path, Seg, Use, UseItem,
};

verus! {

#[derive(Clone, Copy, Debug, PartialEq, Eq, Structural)]
pub enum SyntaxErrorKind {
    /// A declaration that does not start with `use`.
    ExpectedUse,
    /// A position where a name, `#` or `{` should stand.
    ExpectedSegment,
    /// A `#` with no token after it.
    MissingPlaceholder,
    /// `*` where a segment should stand.
    WildcardNotSupported,
    /// `as` without a name after it.
    ExpectedAliasName,
    /// A chain that is not continued or ended by `::`, `as`, `,`, `;` or `}`.
    UnterminatedDeclaration,
    /// Something other than the end of the chain after a closed `{...}`.
    UnterminatedGroup,
    /// Something other than the end of the chain after `as NAME`.
    MisplacedAlias,
    /// `self` with no path before it, or anywhere but at the end of a path.
    IllegalSelfReference,
    /// A bound path whose last segment is a placeholder.
    NonNameTail,
    /// A token after a complete declaration, where nothing more may stand.
    UnexpectedToken,
}

/// The tokens that could have stood where a declaration went wrong.
#[derive(Clone, Copy, Debug, PartialEq, Eq, Structural)]
pub struct Expected {
    pub semicolon: bool,
    pub comma: bool,
    /// The end of the braces.
    pub group_end: bool,
    pub alias: bool,
    /// `::`
    pub path_sep: bool,
    /// An identifier, `#` or `{`.
    pub segment: bool,
    pub identifier: bool,
    /// Any token (after `#`).
    pub token: bool,
    pub use_keyword: bool,
    /// The end of the input.
    pub end: bool,
}

/// A malformed declaration: what went wrong, the token where it was found, and what
/// could have stood there.
#[derive(Clone, Copy, Debug, PartialEq, Eq, Structural)]
pub struct SyntaxError {
    pub kind: SyntaxErrorKind,
    pub span: Span,
    pub expected: Expected,
}

pub open spec fn no_token() -> Expected {
    Expected {
        semicolon: false,
        comma: false,
        group_end: false,
        alias: false,
        path_sep: false,
        segment: false,
        identifier: false,
        token: false,
        use_keyword: false,
        end: false,
    }
}

/// What ends a chain: `;` in a declaration, `,` or the closing brace inside braces.
pub open spec fn chain_end(inner: bool) -> Expected {
    Expected { semicolon: !inner, comma: inner, group_end: inner, ..no_token() }
}

/// What could have stood where an error of this kind was found; `inner` says whether
/// that was inside braces.
pub open spec fn expected_for(kind: SyntaxErrorKind, inner: bool) -> Expected {
    match kind {
        SyntaxErrorKind::ExpectedUse => Expected { use_keyword: true, ..no_token() },
        SyntaxErrorKind::ExpectedSegment => Expected { segment: true, ..no_token() },
        SyntaxErrorKind::MissingPlaceholder => Expected { token: true, ..no_token() },
        SyntaxErrorKind::WildcardNotSupported => Expected { segment: true, ..no_token() },
        SyntaxErrorKind::ExpectedAliasName => Expected { identifier: true, ..no_token() },
        SyntaxErrorKind::UnterminatedDeclaration => Expected {
            alias: true,
            path_sep: true,
            ..chain_end(inner)
        },
        SyntaxErrorKind::UnterminatedGroup => chain_end(inner),
        SyntaxErrorKind::MisplacedAlias => chain_end(inner),
        SyntaxErrorKind::IllegalSelfReference => no_token(),
        SyntaxErrorKind::NonNameTail => Expected { identifier: true, ..no_token() },
        SyntaxErrorKind::UnexpectedToken => Expected { end: true, ..no_token() },
    }
}

pub open spec fn error(kind: SyntaxErrorKind, inner: bool, span: Span) -> SyntaxError {
    SyntaxError { kind, span, expected: expected_for(kind, inner) }
}

/// The error of this kind at `span`, with what could have stood there.
pub fn syntax_error(kind: SyntaxErrorKind, inner: bool, span: Span) -> (r: SyntaxError)
    ensures
        r == error(kind, inner, span),
{
    let f = false;
    let none = Expected {
        semicolon: f,
        comma: f,
        group_end: f,
        alias: f,
        path_sep: f,
        segment: f,
        identifier: f,
        token: f,
        use_keyword: f,
        end: f,
    };
    let end_of_chain = Expected { semicolon: !inner, comma: inner, group_end: inner, ..none };
    let expected = match kind {
        SyntaxErrorKind::ExpectedUse => Expected { use_keyword: true, ..none },
        SyntaxErrorKind::ExpectedSegment => Expected { segment: true, ..none },
        SyntaxErrorKind::MissingPlaceholder => Expected { token: true, ..none },
        SyntaxErrorKind::WildcardNotSupported => Expected { segment: true, ..none },
        SyntaxErrorKind::ExpectedAliasName => Expected { identifier: true, ..none },
        SyntaxErrorKind::UnterminatedDeclaration => Expected {
            alias: true,
            path_sep: true,
            ..end_of_chain
        },
        SyntaxErrorKind::UnterminatedGroup => end_of_chain,
        SyntaxErrorKind::MisplacedAlias => end_of_chain,
        SyntaxErrorKind::IllegalSelfReference => none,
        SyntaxErrorKind::NonNameTail => Expected { identifier: true, ..none },
        SyntaxErrorKind::UnexpectedToken => Expected { end: true, ..none },
    };
    SyntaxError { kind, span, expected }
}

pub open spec fn tok_span(t: Tok) -> Span {
    match t {
        Tok::Ident { span, .. } => span,
        Tok::Punct { span, .. } => span,
        Tok::Literal { span, .. } => span,
        Tok::Group { span, .. } => span,
    }
}

/// The span of the token at `p`, or `end` past the last token.
pub open spec fn span_at(toks: Seq<Tok>, p: int, end: Span) -> Span {
    if 0 <= p < toks.len() {
        tok_span(toks[p])
    } else {
        end
    }
}

pub open spec fn is_punct(t: Tok, c: char) -> bool {
    match t {
        Tok::Punct { ch, .. } => ch == c,
        _ => false,
    }
}

pub open spec fn is_ident_named(t: Tok, n: Seq<char>) -> bool {
    match t {
        Tok::Ident { name, .. } => name == n,
        _ => false,
    }
}

pub open spec fn is_joint_colon(t: Tok) -> bool {
    match t {
        Tok::Punct { ch, spacing, .. } => ch == ':' && spacing == Spacing::Joint,
        _ => false,
    }
}

/// A `::` starts at `p`.
pub open spec fn is_colon2(toks: Seq<Tok>, p: int) -> bool {
    &&& 0 <= p
    &&& p + 1 < toks.len()
    &&& is_joint_colon(toks[p])
    &&& is_punct(toks[p + 1], ':')
}

/// A chain ends at `p`: at `;` in a declaration, at `,` or the end inside braces.
pub open spec fn at_terminator(toks: Seq<Tok>, p: int, inner: bool) -> bool {
    if inner {
        p >= toks.len() || (0 <= p && is_punct(toks[p], ','))
    } else {
        0 <= p < toks.len() && is_punct(toks[p], ';')
    }
}

pub open spec fn pop_self(path: Seq<Seg>) -> Seq<Seg> {
    if path.len() > 0 && seg_is_self(path.last()) {
        path.drop_last()
    } else {
        path
    }
}

pub open spec fn seg_span(s: Seg) -> Span {
    match s {
        Seg::Name { span, .. } => span,
        Seg::Placeholder { pound, .. } => pound,
    }
}

/// The chain that starts at `pos`, under the path `prefix`: its bindings and the
/// position of its terminator. `end` is the span reported at the end of `toks`.
pub open spec fn chain(
    prefix: Seq<Seg>,
    toks: Seq<Tok>,
    pos: int,
    inner: bool,
    end: Span,
) -> Result<(Seq<Binding>, int), SyntaxError>
    decreases toks, toks.len() - pos, 0int,
{
    if pos < 0 || pos >= toks.len() {
        Err(error(SyntaxErrorKind::ExpectedSegment, inner, end))
    } else {
        match toks[pos] {
            Tok::Ident { name, span } => after(
                prefix.push(Seg::Name { name, span }),
                toks,
                pos + 1,
                inner,
                end,
            ),
            Tok::Punct { ch, span, .. } => if ch == '#' {
                if pos + 1 < toks.len() {
                    after(
                        prefix.push(Seg::Placeholder { pound: span, token: toks[pos + 1] }),
                        toks,
                        pos + 2,
                        inner,
                        end,
                    )
                } else {
                    Err(error(SyntaxErrorKind::MissingPlaceholder, inner, end))
                }
            } else if ch == '*' {
                Err(error(SyntaxErrorKind::WildcardNotSupported, inner, span))
            } else {
                Err(error(SyntaxErrorKind::ExpectedSegment, inner, span))
            },
            Tok::Group { delimiter, stream, span } => if delimiter == Delimiter::Brace {
                match group(prefix, stream, 0, span) {
                    Ok(b) => if at_terminator(toks, pos + 1, inner) {
                        Ok((b, pos + 1))
                    } else {
                        Err(
                            error(SyntaxErrorKind::UnterminatedGroup, inner,
                                span_at(toks, pos + 1, end),
                            ),
                        )
                    },
                    Err(e) => Err(e),
                }
            } else {
                Err(error(SyntaxErrorKind::ExpectedSegment, inner, span))
            },
            Tok::Literal { span, .. } => Err(error(SyntaxErrorKind::ExpectedSegment, inner, span)),
        }
    }
}

/// What follows the segment that `path` ends with, from `p` on.
pub open spec fn after(
    path: Seq<Seg>,
    toks: Seq<Tok>,
    p: int,
    inner: bool,
    end: Span,
) -> Result<(Seq<Binding>, int), SyntaxError>
    decreases toks, toks.len() - p, 2int,
{
    if p < 0 || p > toks.len() {
        Err(error(SyntaxErrorKind::UnterminatedDeclaration, inner, end))
    } else if at_terminator(toks, p, inner) {
        let bound = pop_self(path);
        if bound.len() == 0 {
            Err(error(SyntaxErrorKind::IllegalSelfReference, inner, seg_span(path.last())))
        } else {
            match bound.last() {
                Seg::Name { name, span } => Ok((seq![Binding { path: bound, name, span }], p)),
                Seg::Placeholder { pound, .. } => Err(error(SyntaxErrorKind::NonNameTail, inner, pound)),
            }
        }
    } else if p < toks.len() && is_ident_named(toks[p], "as"@) {
        if p + 1 < toks.len() && toks[p + 1] is Ident {
            let bound = pop_self(path);
            if bound.len() == 0 {
                Err(error(SyntaxErrorKind::IllegalSelfReference, inner, seg_span(path.last())))
            } else if at_terminator(toks, p + 2, inner) {
                Ok(
                    (
                        seq![
                            Binding {
                                path: bound,
                                name: toks[p + 1]->Ident_name,
                                span: toks[p + 1]->Ident_span,
                            },
                        ],
                        p + 2,
                    ),
                )
            } else {
                Err(error(SyntaxErrorKind::MisplacedAlias, inner, span_at(toks, p + 2, end)))
            }
        } else {
            Err(error(SyntaxErrorKind::ExpectedAliasName, inner, span_at(toks, p + 1, end)))
        }
    } else if is_colon2(toks, p) {
        if path.len() > 0 && seg_is_self(path.last()) {
            Err(error(SyntaxErrorKind::IllegalSelfReference, inner, seg_span(path.last())))
        } else {
            chain(path, toks, p + 2, inner, end)
        }
    } else {
        Err(error(SyntaxErrorKind::UnterminatedDeclaration, inner, span_at(toks, p, end)))
    }
}

/// The comma-separated chains inside braces, from `pos` on, under `prefix`.
pub open spec fn group(prefix: Seq<Seg>, c: Seq<Tok>, pos: int, end: Span) -> Result<
    Seq<Binding>,
    SyntaxError,
>
    decreases c, c.len() - pos, 1int,
{
    if pos < 0 || pos > c.len() {
        Err(error(SyntaxErrorKind::ExpectedSegment, true, end))
    } else {
        match chain(prefix, c, pos, true, end) {
            Err(e) => Err(e),
            Ok((b, p)) => if p >= c.len() {
                Ok(b)
            } else if p < pos || !is_punct(c[p], ',') {
                Err(error(SyntaxErrorKind::UnterminatedDeclaration, true, span_at(c, p, end)))
            } else if p + 1 >= c.len() {
                Ok(b)
            } else {
                match group(prefix, c, p + 1, end) {
                    Ok(b2) => Ok(b + b2),
                    Err(e) => Err(e),
                }
            },
        }
    }
}

/// One declaration `use [::] chain ;` at `pos`: its bindings and the position after
/// it. Nothing at `pos` is an empty declaration.
pub open spec fn use_item(toks: Seq<Tok>, pos: int, end: Span) -> Result<
    (Seq<Binding>, int),
    SyntaxError,
> {
    if pos >= toks.len() {
        Ok((Seq::empty(), pos))
    } else if !is_ident_named(toks[pos], "use"@) {
        Err(error(SyntaxErrorKind::ExpectedUse, false, tok_span(toks[pos])))
    } else {
        let p = if is_colon2(toks, pos + 1) {
            pos + 3
        } else {
            pos + 1
        };
        match chain(Seq::empty(), toks, p, false, end) {
            Ok((b, q)) => if 0 <= q < toks.len() && is_punct(toks[q], ';') {
                Ok((b, q + 1))
            } else {
                Err(error(SyntaxErrorKind::UnterminatedDeclaration, false, span_at(toks, q, end)))
            },
            Err(e) => Err(e),
        }
    }
}

fn span_of(t: &TokenTree) -> (r: Span)
    ensures
        r == tok_span(t@),
{
    match t {
        TokenTree::Ident(i) => i.span,
        TokenTree::Punct { span, .. } => *span,
        TokenTree::Literal { span, .. } => *span,
        TokenTree::Group { span, .. } => *span,
    }
}

fn punct_is(t: &TokenTree, c: char) -> (r: bool)
    ensures
        r == is_punct(t@, c),
{
    match t {
        TokenTree::Punct { ch, .. } => *ch == c,
        _ => false,
    }
}

fn ident_named(t: &TokenTree, lit: &str) -> (r: bool)
    ensures
        r == is_ident_named(t@, lit@),
{
    match t {
        TokenTree::Ident(i) => name_is(&i.name, lit),
        _ => false,
    }
}

fn span_at_exec(toks: &Vec<TokenTree>, p: usize, end: Span) -> (r: Span)
    ensures
        r == span_at(trees_view(toks@), p as int, end),
{
    proof {
        lemma_view_all(toks@);
    }
    if p < toks.len() {
        span_of(&toks[p])
    } else {
        end
    }
}

fn colon2_at(toks: &Vec<TokenTree>, p: usize) -> (r: bool)
    ensures
        r == is_colon2(trees_view(toks@), p as int),
{
    proof {
        lemma_view_all(toks@);
    }
    if p < toks.len() && p + 1 < toks.len() {
        let first = match &toks[p] {
            TokenTree::Punct { ch, spacing, .. } => *ch == ':' && *spacing == Spacing::Joint,
            _ => false,
        };
        first && punct_is(&toks[p + 1], ':')
    } else {
        false
    }
}

fn terminator_at(toks: &Vec<TokenTree>, p: usize, inner: bool) -> (r: bool)
    ensures
        r == at_terminator(trees_view(toks@), p as int, inner),
{
    proof {
        lemma_view_all(toks@);
    }
    if inner {
        p >= toks.len() || punct_is(&toks[p], ',')
    } else {
        p < toks.len() && punct_is(&toks[p], ';')
    }
}

fn push_use(output: &mut Vec<Use>, u: Use)
    ensures
        uses_view(final(output)@) == uses_view(old(output)@).push(u@),
        uses_wf(uses_view(old(output)@)) && u@.path.len() > 0 ==> uses_wf(
            uses_view(final(output)@),
        ),
{
    output.push(u);
    assert(uses_view(output@) =~= uses_view(old(output)@).push(u@));
}

/// Parses the comma-separated chains inside braces (`stream`, whose braces have the
/// span `span`) under the path `parent`, and appends their bindings to `output`.
pub fn parse_group(
    parent: &Path,
    stream: &Vec<TokenTree>,
    span: Span,
    output: &mut Vec<Use>,
) -> (r: Result<(), SyntaxError>)
    ensures
        match group(parent@, trees_view(stream@), 0, span) {
            Ok(b) => r is Ok && uses_view(final(output)@) == uses_view(old(output)@) + b,
            Err(e) => r == Err::<(), SyntaxError>(e),
        },
        uses_wf(uses_view(old(output)@)) ==> uses_wf(uses_view(final(output)@)),
    decreases stream, 1int,
{
    let ghost c = trees_view(stream@);
    let ghost base = uses_view(output@);
    let ghost mut acc: Seq<Binding> = Seq::empty();
    let ghost inside = group(parent@, c, 0, span);
    proof {
        lemma_view_all(stream@);
    }
    let mut q: usize = 0;
    assert(acc + Seq::<Binding>::empty() =~= acc);
    loop
        invariant
            q <= stream@.len(),
            c == trees_view(stream@),
            c.len() == stream@.len(),
            forall|i: int| 0 <= i < stream@.len() ==> #[trigger] c[i] == stream@[i]@,
            inside == group(parent@, c, 0, span),
            inside == match group(parent@, c, q as int, span) {
                Ok(b) => Ok(acc + b),
                Err(e) => Err(e),
            },
            uses_view(output@) == base + acc,
            base == uses_view(old(output)@),
            uses_wf(base) ==> uses_wf(uses_view(output@)),
        decreases stream@.len() - q,
    {
        let r = parse_use_segment(parent, stream, q, span, output, true);
        match r {
            Err(e) => {
                return Err(e);
            },
            Ok(r) => {
                let ghost b = chain(parent@, c, q as int, true, span)->Ok_0.0;
                let ghost old_acc = acc;
                proof {
                    assert(uses_view(output@) =~= base + (acc + b));
                    acc = acc + b;
                }
                if r >= stream.len() {
                    assert(acc + Seq::<Binding>::empty() =~= acc);
                    return Ok(());
                }
                if !punct_is(&stream[r], ',') {
                    return Err(
                        syntax_error(SyntaxErrorKind::UnterminatedDeclaration, true, span_at_exec(stream, r, span)),
                    );
                }
                if r + 1 >= stream.len() {
                    assert(acc + Seq::<Binding>::empty() =~= acc);
                    return Ok(());
                }
                proof {
                    let g2 = group(parent@, c, r + 1, span);
                    if g2 is Ok {
                        assert(old_acc + (b + g2->Ok_0) =~= acc + g2->Ok_0);
                    }
                }
                q = r + 1;
            },
        }
    }
}

/// The span of the last segment of a non-empty path.
fn last_span(path: &Path) -> (r: Span)
    requires
        path@.len() > 0,
    ensures
        r == seg_span(path@.last()),
{
    match &path.0[path.0.len() - 1] {
        IdentOrPounded::Ident(i) => i.span,
        IdentOrPounded::Pounded(s, _) => *s,
    }
}

/// What follows the segment that `path` ends with, at `p`: the chain ends there (its
/// binding is appended to `output`), or fails, or (`None`) goes on after a `::`.
fn after_segment(
    path: &mut Path,
    input: &Vec<TokenTree>,
    p: usize,
    inner: bool,
    end: Span,
    output: &mut Vec<Use>,
) -> (r: Option<Result<usize, SyntaxError>>)
    requires
        p <= input@.len(),
        old(path)@.len() > 0,
    ensures
        match r {
            Some(x) => match after(old(path)@, trees_view(input@), p as int, inner, end) {
                Ok((b, q)) => {
                    &&& x == Ok::<usize, SyntaxError>(q as usize)
                    &&& p <= q <= input@.len()
                    &&& uses_view(final(output)@) == uses_view(old(output)@) + b
                },
                Err(e) => x == Err::<usize, SyntaxError>(e),
            },
            None => {
                &&& p + 2 <= input@.len()
                &&& final(path)@ == old(path)@
                &&& final(output)@ == old(output)@
                &&& after(old(path)@, trees_view(input@), p as int, inner, end) == chain(
                    old(path)@,
                    trees_view(input@),
                    p + 2,
                    inner,
                    end,
                )
            },
        },
        uses_wf(uses_view(old(output)@)) ==> uses_wf(uses_view(final(output)@)),
{
    proof {
        lemma_view_all(input@);
    }
    if terminator_at(input, p, inner) {
        let self_span = last_span(path);
        path.pop_self();
        if path.len() == 0 {
            return Some(
                Err(syntax_error(SyntaxErrorKind::IllegalSelfReference, inner, self_span)),
            );
        }
        match path.get_ident() {
            Some(i) => {
                let u = Use(path.duplicate(), i.duplicate());
                push_use(output, u);
                assert(uses_view(output@) =~= uses_view(old(output)@) + seq![u@]);
                Some(Ok(p))
            },
            None => {
                let s = last_span(path);
                Some(Err(syntax_error(SyntaxErrorKind::NonNameTail, inner, s)))
            },
        }
    } else if p < input.len() && ident_named(&input[p], "as") {
        if p + 1 < input.len() {
            if let TokenTree::Ident(alias) = &input[p + 1] {
                let self_span = last_span(path);
                path.pop_self();
                if path.len() == 0 {
                    return Some(
                        Err(
                            syntax_error(SyntaxErrorKind::IllegalSelfReference, inner, self_span),
                        ),
                    );
                }
                if terminator_at(input, p + 2, inner) {
                    let u = Use(path.duplicate(), alias.duplicate());
                    push_use(output, u);
                    assert(uses_view(output@) =~= uses_view(old(output)@) + seq![u@]);
                    return Some(Ok(p + 2));
                } else {
                    return Some(
                        Err(
                            syntax_error(SyntaxErrorKind::MisplacedAlias, inner, span_at_exec(input, p + 2, end)),
                        ),
                    );
                }
            }
        }
        Some(
            Err(
                syntax_error(SyntaxErrorKind::ExpectedAliasName, inner, span_at_exec(input, p + 1, end)),
            ),
        )
    } else if colon2_at(input, p) {
        if path.0[path.0.len() - 1].is_self() {
            let s = last_span(path);
            Some(Err(syntax_error(SyntaxErrorKind::IllegalSelfReference, inner, s)))
        } else {
            None
        }
    } else {
        Some(
            Err(
                syntax_error(SyntaxErrorKind::UnterminatedDeclaration, inner, span_at_exec(input, p, end)),
            ),
        )
    }
}

/// Parses the chain at `pos` under the path `parent`, appends its bindings to
/// `output`, and returns the position of the token that ends it.
pub fn parse_use_segment(
    parent: &Path,
    input: &Vec<TokenTree>,
    pos: usize,
    end: Span,
    output: &mut Vec<Use>,
    inner: bool,
) -> (r: Result<usize, SyntaxError>)
    requires
        pos <= input@.len(),
    ensures
        match chain(parent@, trees_view(input@), pos as int, inner, end) {
            Ok((b, p)) => {
                &&& r == Ok::<usize, SyntaxError>(p as usize)
                &&& pos < p <= input@.len()
                &&& uses_view(final(output)@) == uses_view(old(output)@) + b
            },
            Err(e) => r == Err::<usize, SyntaxError>(e),
        },
        uses_wf(uses_view(old(output)@)) ==> uses_wf(uses_view(final(output)@)),
    decreases input, 0int,
{
    let ghost t = trees_view(input@);
    let ghost whole = chain(parent@, t, pos as int, inner, end);
    proof {
        lemma_view_all(input@);
    }
    let mut path = parent.duplicate();
    let mut p: usize = pos;
    loop
        invariant
            pos <= p <= input@.len(),
            t == trees_view(input@),
            t.len() == input@.len(),
            forall|i: int| 0 <= i < input@.len() ==> #[trigger] t[i] == input@[i]@,
            output@ == old(output)@,
            whole == chain(parent@, t, pos as int, inner, end),
            whole == chain(path@, t, p as int, inner, end),
        decreases input@.len() - p,
    {
        if p >= input.len() {
            return Err(syntax_error(SyntaxErrorKind::ExpectedSegment, inner, end));
        }
        proof {
            vstd::std_specs::vec::axiom_vec_index_decreases(*input, p as int);
        }
        match &input[p] {
            TokenTree::Ident(ident) => {
                path.push(IdentOrPounded::Ident(ident.duplicate()));
                p = p + 1;
            },
            TokenTree::Punct { ch, span, .. } => {
                if *ch == '#' {
                    if p + 1 < input.len() {
                        path.push(IdentOrPounded::Pounded(*span, input[p + 1].duplicate()));
                        p = p + 2;
                    } else {
                        return Err(
                            syntax_error(SyntaxErrorKind::MissingPlaceholder, inner, end),
                        );
                    }
                } else if *ch == '*' {
                    return Err(
                        syntax_error(SyntaxErrorKind::WildcardNotSupported, inner, *span),
                    );
                } else {
                    return Err(syntax_error(SyntaxErrorKind::ExpectedSegment, inner, *span));
                }
            },
            TokenTree::Group { delimiter, stream, span } => {
                if *delimiter != Delimiter::Brace {
                    return Err(syntax_error(SyntaxErrorKind::ExpectedSegment, inner, *span));
                }
                match parse_group(&path, stream, *span, output) {
                    Err(e) => {
                        return Err(e);
                    },
                    Ok(()) => {},
                }
                if terminator_at(input, p + 1, inner) {
                    return Ok(p + 1);
                } else {
                    return Err(
                        syntax_error(
                            SyntaxErrorKind::UnterminatedGroup,
                            inner,
                            span_at_exec(input, p + 1, end),
                        ),
                    );
                }
            },
            TokenTree::Literal { span, .. } => {
                return Err(syntax_error(SyntaxErrorKind::ExpectedSegment, inner, *span));
            },
        }
        assert(whole == after(path@, t, p as int, inner, end));
        match after_segment(&mut path, input, p, inner, end, output) {
            Some(x) => {
                return x;
            },
            None => {
                p = p + 2;
            },
        }
    }
}

/// Tokens that hold one declaration and nothing else.
pub open spec fn whole_use_item(toks: Seq<Tok>) -> Result<Seq<Binding>, SyntaxError> {
    match use_item(toks, 0, Span::spec_call_site()) {
        Ok((b, p)) => if p >= toks.len() {
            Ok(b)
        } else {
            Err(error(SyntaxErrorKind::UnexpectedToken, false, span_at(toks, p, Span::spec_call_site())))
        },
        Err(e) => Err(e),
    }
}

impl UseItem {
    /// Parses the declaration at `pos` (none where `pos` is the end), and returns its
    /// bindings and the position after it.
    pub fn parse(input: &Vec<TokenTree>, pos: usize, end: Span) -> (r: Result<
        (UseItem, usize),
        SyntaxError,
    >)
        requires
            pos <= input@.len(),
        ensures
            match use_item(trees_view(input@), pos as int, end) {
                Ok((b, p)) => r is Ok && uses_view(r->Ok_0.0.0@) == b && r->Ok_0.1 == p && p
                    <= input@.len(),
                Err(e) => r == Err::<(UseItem, usize), SyntaxError>(e),
            },
            r is Ok ==> uses_wf(uses_view(r->Ok_0.0.0@)),
            r is Ok && pos < input@.len() ==> r->Ok_0.1 > pos + 1,
    {
        proof {
            lemma_view_all(input@);
        }
        if pos >= input.len() {
            let v: Vec<Use> = Vec::new();
            assert(uses_view(v@) =~= Seq::<Binding>::empty());
            return Ok((UseItem(v), pos));
        }
        if !ident_named(&input[pos], "use") {
            return Err(
                syntax_error(SyntaxErrorKind::ExpectedUse, false, span_of(&input[pos])),
            );
        }
        let p = if colon2_at(input, pos + 1) {
            pos + 3
        } else {
            pos + 1
        };
        let mut out: Vec<Use> = Vec::new();
        assert(uses_view(out@) =~= Seq::<Binding>::empty());
        let root = Path::new();
        match parse_use_segment(&root, input, p, end, &mut out, false) {
            Err(e) => Err(e),
            Ok(q) => {
                assert(uses_view(out@) =~= Seq::<Binding>::empty() + uses_view(out@));
                if q < input.len() && punct_is(&input[q], ';') {
                    Ok((UseItem(out), q + 1))
                } else {
                    Err(
                        syntax_error(SyntaxErrorKind::UnterminatedDeclaration, false, span_at_exec(input, q, end)),
                    )
                }
            },
        }
    }
}

/// Parses tokens that hold one declaration and nothing else.
pub fn parse_use_item(input: &Vec<TokenTree>) -> (r: Result<UseItem, SyntaxError>)
    ensures
        match whole_use_item(trees_view(input@)) {
            Ok(b) => r is Ok && uses_view(r->Ok_0.0@) == b,
            Err(e) => r == Err::<UseItem, SyntaxError>(e),
        },
{
    proof {
        lemma_view_all(input@);
    }
    let cs = Span::call_site();
    match UseItem::parse(input, 0, cs) {
        Err(e) => Err(e),
        Ok((item, p)) => {
            if p >= input.len() {
                Ok(item)
            } else {
                Err(
                    syntax_error(SyntaxErrorKind::UnexpectedToken, false, span_at_exec(input, p, cs)),
                )
            }
        },
    }
}

} // verus!
