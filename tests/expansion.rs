use quote_use::expand::quote_use_impl;
use quote_use::parse::{parse_use_item, Expected, SyntaxErrorKind};
use quote_use::path::{Use, UseItem};
use quote_use::tokens::{Delimiter, Ident, Spacing, Span, TokenTree};

fn convert(ts: proc_macro2::TokenStream, next: &mut u64) -> Vec<TokenTree> {
    let mut out = Vec::new();
    for tt in ts {
        *next += 1;
        let span = Span { id: *next };
        out.push(match tt {
            proc_macro2::TokenTree::Ident(i) => TokenTree::Ident(Ident { name: i.to_string(), span }),
            proc_macro2::TokenTree::Punct(p) => TokenTree::Punct {
                ch: p.as_char(),
                spacing: match p.spacing() {
                    proc_macro2::Spacing::Joint => Spacing::Joint,
                    proc_macro2::Spacing::Alone => Spacing::Alone,
                },
                span,
            },
            proc_macro2::TokenTree::Literal(l) => TokenTree::Literal { repr: l.to_string(), span },
            proc_macro2::TokenTree::Group(g) => {
                let delimiter = match g.delimiter() {
                    proc_macro2::Delimiter::Parenthesis => Delimiter::Parenthesis,
                    proc_macro2::Delimiter::Brace => Delimiter::Brace,
                    proc_macro2::Delimiter::Bracket => Delimiter::Bracket,
                    proc_macro2::Delimiter::None => Delimiter::Invisible,
                };
                TokenTree::Group { delimiter, stream: convert(g.stream(), next), span }
            }
        });
    }
    out
}

/// Tokens of `s`, each with a span of its own.
fn lex(s: &str) -> Vec<TokenTree> {
    let mut next = 0;
    convert(s.parse().unwrap(), &mut next)
}

/// The text of the tokens, without spaces.
fn text(toks: &[TokenTree]) -> String {
    let mut s = String::new();
    for t in toks {
        match t {
            TokenTree::Ident(i) => s.push_str(&i.name),
            TokenTree::Punct { ch, .. } => s.push(*ch),
            TokenTree::Literal { repr, .. } => s.push_str(repr),
            TokenTree::Group { delimiter, stream, .. } => {
                let (open, close) = match delimiter {
                    Delimiter::Parenthesis => ("(", ")"),
                    Delimiter::Brace => ("{", "}"),
                    Delimiter::Bracket => ("[", "]"),
                    Delimiter::Invisible => ("", ""),
                };
                s.push_str(open);
                s.push_str(&text(stream));
                s.push_str(close);
            }
        }
    }
    s
}

fn path_text(u: &Use) -> String {
    let mut out = Vec::new();
    u.0.to_tokens(&mut out);
    text(&out)
}

fn uses_of(s: &str) -> Vec<(String, String)> {
    let UseItem(uses) = parse_use_item(&lex(s)).unwrap();
    uses.iter().map(|u| (path_text(u), u.1.name.clone())).collect()
}

fn pairs(v: &[(&str, &str)]) -> Vec<(String, String)> {
    v.iter().map(|(p, n)| (p.to_string(), n.to_string())).collect()
}

/// The tokens that the quoting macro receives for `body`, without a span argument.
fn expand(body: &str) -> String {
    expand_with("", body)
}

fn expand_with(span: &str, body: &str) -> String {
    let input = lex(&format!("(::quote::quote) ({}) ({})", span, body));
    let out = quote_use_impl(&input).unwrap();
    assert_eq!(text(&out[..out.len() - 2]), "::quote::quote");
    assert!(matches!(out[out.len() - 2], TokenTree::Punct { ch: '!', .. }));
    match &out[out.len() - 1] {
        TokenTree::Group { delimiter: Delimiter::Brace, stream, .. } => text(stream),
        _ => panic!("the expansion ends with a braced group"),
    }
}

fn quoted(s: &str) -> String {
    text(&lex(s))
}

#[test]
fn use_item() {
    assert_eq!(uses_of("use ::a::b;"), pairs(&[("::a::b", "b")]));
    assert_eq!(
        uses_of("use a::{c, self, b};"),
        pairs(&[("::a::c", "c"), ("::a", "a"), ("::a::b", "b")])
    );
    assert_eq!(uses_of("use a::{self as c, b as a};"), pairs(&[("::a", "c"), ("::a::b", "a")]));
    assert_eq!(
        uses_of("use a::{b::{a, b}, c};"),
        pairs(&[("::a::b::a", "a"), ("::a::b::b", "b"), ("::a::c", "c")])
    );
    assert_eq!(uses_of("use #var::a;"), pairs(&[("#var::a", "a")]));
    assert_eq!(uses_of("use ::a::#var::a;"), pairs(&[("::a::#var::a", "a")]));
    assert_eq!(uses_of("use ::a::#var as a;"), pairs(&[("::a::#var", "a")]));
}

#[test]
fn error() {
    let e = parse_use_item(&lex("use ::a::#b;")).unwrap_err();
    assert_eq!(e.kind, SyntaxErrorKind::NonNameTail);
}

#[test]
fn use_declaration() {
    let quoted = quoted("::smth::ho::Name(10)");
    assert_eq!(expand("# use ::smth::ho::Name; Name(10)"), quoted);
    assert_eq!(expand("# use smth::ho::Name; Name(10)"), quoted);
    assert_eq!(expand("# use smth::ho::Name as Something; Something(10)"), quoted);
}

#[test]
fn no_prelude() {
    let quoted = quoted("Some(10)");
    assert_eq!(expand("# use no_prelude; Some(10)"), quoted);
}

#[test]
fn prelude_core() {
    assert_eq!(expand("Some(10)"), quoted("::core::prelude::v1::Some(10)"));
}

#[test]
fn prelude_2021() {
    assert_eq!(expand("FromIterator"), quoted("::core::prelude::rust_2021::FromIterator"));
}

#[test]
fn prelude_std() {
    assert_eq!(
        expand("String::new(\"hello\")"),
        quoted("::std::prelude::v1::String::new(\"hello\")")
    );
}

#[test]
fn prelude_override() {
    assert_eq!(expand("# use anyhow::Result; Result"), quoted("::anyhow::Result"));
}

#[test]
fn ident_in_path() {
    assert_eq!(
        expand("# use ::smth::ho::Name; Name(10); other::Name(10)"),
        quoted("::smth::ho::Name(10); other::Name(10)")
    );
}

#[test]
fn ident_in_var() {
    assert_eq!(
        expand("# use ::smth::ho::name; name(10); #name"),
        quoted("::smth::ho::name(10); #name")
    );
}

#[test]
fn module() {
    assert_eq!(
        expand("# use ::smth::ho; ho::Name(10); other::Name(10)"),
        quoted("::smth::ho::Name(10); other::Name(10)")
    );
}

#[test]
fn group() {
    let quoted = quoted(
        "::smth::ho::Name(10); ::smth::ho::module::another::Strange; other::Name(10)",
    );
    assert_eq!(
        expand(
            "# use ::smth::ho::{Name, Ident, module::{something::anything, another::Strange}};
             Name(10); Strange; other::Name(10)"
        ),
        quoted
    );
    assert_eq!(
        expand(
            "# use ::smth::ho::{Name as SomethingElse, Ident, module::{another::Strange, something::anything}};
             SomethingElse(10); Strange; other::Name(10)"
        ),
        quoted
    );
}

#[test]
fn self_in_group() {
    let quoted = quoted("::smth::ho::Name(10);");
    assert_eq!(expand("# use ::smth::ho::{self, Ident}; ho::Name(10);"), quoted);
    assert_eq!(expand("# use ::smth::ho::{self as test, Ident}; test::Name(10);"), quoted);
}

#[test]
fn braces() {
    assert_eq!(
        expand("# use ::smth::ho::Name; {Name(10)} [Name(10)] (Name(10))"),
        quoted("{::smth::ho::Name(10)} [::smth::ho::Name(10)] (::smth::ho::Name(10))")
    );
}

#[test]
fn var_in_path() {
    assert_eq!(expand("# use #root::Name; Name(10);"), quoted("#root::Name(10);"));
}

#[test]
fn quote_spanned() {
    assert_eq!(
        expand_with("Span::call_site() =>", "# use smth::ho::Name; Name(10)"),
        quoted("Span::call_site() => ::smth::ho::Name(10)")
    );
}

#[test]
fn quote_spanned_empty() {
    assert_eq!(expand_with("Span::call_site() =>", ""), quoted("Span::call_site() =>"));
}

#[test]
fn parse_quote_spanned() {
    assert_eq!(
        expand_with("Span::call_site() =>", "# use smth::ho::Name; Name(10)"),
        quoted("Span::call_site() => ::smth::ho::Name(10)")
    );
}

#[test]
fn parse_quote() {
    assert_eq!(expand("# use smth::ho::Name; Name(10)"), quoted("::smth::ho::Name(10)"));
}

const NOTHING: Expected = Expected {
    semicolon: false,
    comma: false,
    group_end: false,
    alias: false,
    path_sep: false,
    segment: false,
    identifier: false,
    token: false,
    use_keyword: false,
    end: false,
};

#[test]
fn ui() {
    // (..)=1 q=2 ()=3 (..)=4 #=5 use=6 hello=7 not=8
    let input = lex("(q) () (# use hello not a ;)");
    let e = quote_use_impl(&input).unwrap_err();
    assert_eq!(e.kind, SyntaxErrorKind::UnterminatedDeclaration);
    assert_eq!(e.span.id, 8);
    assert_eq!(e.expected, Expected { semicolon: true, alias: true, path_sep: true, ..NOTHING });
    // (..)=1 q=2 ()=3 (..)=4 #=5 use=6 hello=7 :=8 :=9 {..}=10 Hello=11 not=12
    let input = lex("(q) () (# use hello::{Hello} not a ;)");
    let e = quote_use_impl(&input).unwrap_err();
    assert_eq!(e.kind, SyntaxErrorKind::UnterminatedGroup);
    assert_eq!(e.span.id, 12);
    assert_eq!(e.expected, Expected { semicolon: true, ..NOTHING });
}

fn error_of(s: &str) -> (SyntaxErrorKind, u64) {
    let e = parse_use_item(&lex(s)).unwrap_err();
    (e.kind, e.span.id)
}

#[test]
fn alias_rewrites_to_the_aliased_path() {
    assert_eq!(expand("# use a::b::Name as Other; Other(10)"), quoted("::a::b::Name(10)"));
}

#[test]
fn self_reference_binds_the_enclosing_path() {
    assert_eq!(expand("# use a::b::{self, X}; b::f()"), quoted("::a::b::f()"));
    assert_eq!(expand("# use a::b::{self as c}; c::f()"), quoted("::a::b::f()"));
}

#[test]
fn qualified_name_is_left_alone() {
    assert_eq!(expand("# use a::b::Name; other::Name(10)"), quoted("other::Name(10)"));
    assert_eq!(expand("# use a::b::Name; ::Name"), quoted("::Name"));
}

#[test]
fn placeholder_is_left_alone() {
    assert_eq!(expand("# use a::b::Name; #Name"), quoted("#Name"));
    assert_eq!(expand("# use a::b::Name; #(Name)*"), quoted("#(::a::b::Name)*"));
}

#[test]
fn nested_groups_keep_their_delimiters() {
    assert_eq!(
        expand("# use a::Name; {[(Name)]} ([Name, {Name}])"),
        quoted("{[(::a::Name)]} ([::a::Name, {::a::Name}])")
    );
    let inner = TokenTree::Group {
        delimiter: Delimiter::Invisible,
        stream: lex("Name 1"),
        span: Span { id: 99 },
    };
    let mut body = lex("# use a::Name;");
    body.push(inner);
    let input = vec![
        TokenTree::Group { delimiter: Delimiter::Parenthesis, stream: lex("q"), span: Span { id: 0 } },
        TokenTree::Group { delimiter: Delimiter::Parenthesis, stream: vec![], span: Span { id: 0 } },
        TokenTree::Group { delimiter: Delimiter::Parenthesis, stream: body, span: Span { id: 0 } },
    ];
    let out = quote_use_impl(&input).unwrap();
    match &out[2] {
        TokenTree::Group { stream, .. } => assert_eq!(text(stream), "::a::Name1"),
        _ => panic!("the expansion ends with a braced group"),
    }
}

#[test]
fn declaration_beats_prelude() {
    assert_eq!(expand("# use my::Option; Option"), quoted("::my::Option"));
    assert_eq!(expand("Option"), quoted("::core::prelude::v1::Option"));
}

#[test]
fn sentinels_turn_the_prelude_off() {
    assert_eq!(expand("# use no_prelude; Option String"), quoted("Option String"));
    assert_eq!(
        expand("# use no_std; Option String FromIterator"),
        quoted("::core::prelude::v1::Option String FromIterator")
    );
}

#[test]
fn tail_without_bound_names_is_unchanged() {
    let tail = "# use no_prelude; foo(1, \"x\") [bar::baz] { 'a' + 2 }";
    assert_eq!(expand(tail), quoted("foo(1, \"x\") [bar::baz] { 'a' + 2 }"));
}

#[test]
fn error_points_at_the_stalled_token() {
    // use=1 a=2 :=3 :=4 {..}=5 b=6 c=7
    assert_eq!(error_of("use a::{b c};"), (SyntaxErrorKind::UnterminatedDeclaration, 7));
    // use=1 a=2 :=3 :=4 {..}=5 b=6 c=7 ;=8
    assert_eq!(error_of("use a::{b} c;"), (SyntaxErrorKind::UnterminatedGroup, 7));
    let e = parse_use_item(&lex("use a::{b c};")).unwrap_err();
    assert_eq!(
        e.expected,
        Expected { comma: true, group_end: true, alias: true, path_sep: true, ..NOTHING }
    );
    assert_eq!(error_of("use hello not;"), (SyntaxErrorKind::UnterminatedDeclaration, 3));
}

#[test]
fn error_kinds() {
    assert_eq!(error_of("use a::*;").0, SyntaxErrorKind::WildcardNotSupported);
    assert_eq!(error_of("use self;").0, SyntaxErrorKind::IllegalSelfReference);
    assert_eq!(error_of("use {self};").0, SyntaxErrorKind::IllegalSelfReference);
    // use=1 self=2
    assert_eq!(error_of("use self::a;"), (SyntaxErrorKind::IllegalSelfReference, 2));
    // use=1 a=2 :=3 :=4 self=5
    assert_eq!(error_of("use a::self::b;"), (SyntaxErrorKind::IllegalSelfReference, 5));
    assert_eq!(error_of("use a::{self::b};").0, SyntaxErrorKind::IllegalSelfReference);
    assert_eq!(error_of("use a as b::c;").0, SyntaxErrorKind::MisplacedAlias);
    assert_eq!(error_of("use a as;").0, SyntaxErrorKind::ExpectedAliasName);
    assert_eq!(error_of("use a::{};").0, SyntaxErrorKind::ExpectedSegment);
    assert_eq!(error_of("use a::1;").0, SyntaxErrorKind::ExpectedSegment);
    assert_eq!(error_of("use a::#").0, SyntaxErrorKind::MissingPlaceholder);
    assert_eq!(error_of("mod a;").0, SyntaxErrorKind::ExpectedUse);
    assert_eq!(error_of("use a; b").0, SyntaxErrorKind::UnexpectedToken);
    assert_eq!(error_of("use a").0, SyntaxErrorKind::UnterminatedDeclaration);
}

#[test]
fn prelude_sizes() {
    assert_eq!(quote_use::prelude::prelude(false).len(), 31);
    assert_eq!(quote_use::prelude::prelude(true).len(), 39);
    let all = quote_use::prelude::prelude(true);
    assert_eq!(path_text(&all[38]), "::core::prelude::rust_2021::TryInto");
    assert_eq!(all[38].1.name, "TryInto");
}

#[test]
fn several_declarations_are_read_in_order() {
    assert_eq!(
        expand("# use a::X; # use b::X; # use c::Y; X Y"),
        quoted("::a::X ::c::Y")
    );
}

#[test]
fn long_chains_bind_their_last_name() {
    assert_eq!(
        uses_of("use a::b::c::d::Name;"),
        pairs(&[("::a::b::c::d::Name", "Name")])
    );
    assert_eq!(uses_of("use a::b::c::d as X;"), pairs(&[("::a::b::c::d", "X")]));
    assert_eq!(
        uses_of("use a::{b::c::{self, d as e}};"),
        pairs(&[("::a::b::c", "c"), ("::a::b::c::d", "e")])
    );
}

#[test]
fn every_bare_occurrence_is_replaced() {
    assert_eq!(
        expand("# use no_prelude; # use a::b::Name; Name + x::Name * #Name - (Name, [Name])"),
        quoted("::a::b::Name + x::Name * #Name - (::a::b::Name, [::a::b::Name])")
    );
}
