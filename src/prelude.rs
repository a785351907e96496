//! The default bindings: the names of Rust's preludes.
use vstd::prelude::*;
use crate::tokens::{Ident, Span};
use crate::path::{uses_view, Binding, IdentOrPounded, Path, Seg, Use};
use crate::rewrite::uses_wf;

verus! {

pub open spec fn names_view(v: Seq<&str>) -> Seq<Seq<char>> {
    v.map_values(|s: &str| s@)
}

/// The names of the prelude of `core` (in `::core::prelude::v1`).
pub open spec fn core_names() -> Seq<Seq<char>> {
    seq![
        "Copy"@,
        "Send"@,
        "Sized"@,
        "Sync"@,
        "Unpin"@,
        "Drop"@,
        "Fn"@,
        "FnMut"@,
        "FnOnce"@,
        "drop"@,
        "Clone"@,
        "Eq"@,
        "Ord"@,
        "PartialEq"@,
        "PartialOrd"@,
        "AsMut"@,
        "AsRef"@,
        "From"@,
        "Into"@,
        "Default"@,
        "DoubleEndedIterator"@,
        "ExactSizeIterator"@,
        "Extend"@,
        "IntoIterator"@,
        "Iterator"@,
        "Option"@,
        "Some"@,
        "None"@,
        "Result"@,
        "Ok"@,
        "Err"@,
    ]
}

/// The names that the prelude of `std` adds (in `::std::prelude::v1`).
pub open spec fn std_names() -> Seq<Seq<char>> {
    seq![
        "Box"@,
        "String"@,
        "ToString"@,
        "Vec"@,
        "ToOwned"@,
    ]
}

/// The names that the 2021 edition adds (in `::core::prelude::rust_2021`).
pub open spec fn edition_names() -> Seq<Seq<char>> {
    seq![
        "FromIterator"@,
        "TryFrom"@,
        "TryInto"@,
    ]
}

pub open spec fn name_seg(n: Seq<char>) -> Seg {
    Seg::Name { name: n, span: Span::spec_call_site() }
}

/// The bindings of `root::{names}`, in the order of `names`.
pub open spec fn bundle(root: Seq<Seq<char>>, names: Seq<Seq<char>>) -> Seq<Binding> {
    Seq::new(
        names.len(),
        |i: int|
            Binding {
                path: root.map_values(|r: Seq<char>| name_seg(r)).push(name_seg(names[i])),
                name: names[i],
                span: Span::spec_call_site(),
            },
    )
}

pub open spec fn core_bundle() -> Seq<Binding> {
    bundle(seq!["core"@, "prelude"@, "v1"@], core_names())
}

pub open spec fn std_bundle() -> Seq<Binding> {
    bundle(seq!["std"@, "prelude"@, "v1"@], std_names())
}

pub open spec fn edition_bundle() -> Seq<Binding> {
    bundle(seq!["core"@, "prelude"@, "rust_2021"@], edition_names())
}

/// The default bindings: those of `core`, then, where `std` is set, those of `std`
/// and of the 2021 edition.
pub open spec fn prelude_bindings(std: bool) -> Seq<Binding> {
    if std {
        core_bundle() + std_bundle() + edition_bundle()
    } else {
        core_bundle()
    }
}

fn core_name_list() -> (r: Vec<&'static str>)
    ensures
        names_view(r@) == core_names(),
{
    let mut v: Vec<&'static str> = Vec::new();
    v.push("Copy");
    v.push("Send");
    v.push("Sized");
    v.push("Sync");
    v.push("Unpin");
    v.push("Drop");
    v.push("Fn");
    v.push("FnMut");
    v.push("FnOnce");
    v.push("drop");
    v.push("Clone");
    v.push("Eq");
    v.push("Ord");
    v.push("PartialEq");
    v.push("PartialOrd");
    v.push("AsMut");
    v.push("AsRef");
    v.push("From");
    v.push("Into");
    v.push("Default");
    v.push("DoubleEndedIterator");
    v.push("ExactSizeIterator");
    v.push("Extend");
    v.push("IntoIterator");
    v.push("Iterator");
    v.push("Option");
    v.push("Some");
    v.push("None");
    v.push("Result");
    v.push("Ok");
    v.push("Err");
    assert(names_view(v@) =~= core_names());
    v
}

fn std_name_list() -> (r: Vec<&'static str>)
    ensures
        names_view(r@) == std_names(),
{
    let mut v: Vec<&'static str> = Vec::new();
    v.push("Box");
    v.push("String");
    v.push("ToString");
    v.push("Vec");
    v.push("ToOwned");
    assert(names_view(v@) =~= std_names());
    v
}

fn edition_name_list() -> (r: Vec<&'static str>)
    ensures
        names_view(r@) == edition_names(),
{
    let mut v: Vec<&'static str> = Vec::new();
    v.push("FromIterator");
    v.push("TryFrom");
    v.push("TryInto");
    assert(names_view(v@) =~= edition_names());
    v
}

fn call_site_ident(s: &str) -> (r: Ident)
    ensures
        r.name@ == s@,
        r.span == Span::spec_call_site(),
{
    Ident { name: s.to_owned(), span: Span::call_site() }
}

/// Appends the bindings of `root::{names}` to `out`.
fn push_bundle(out: &mut Vec<Use>, root: &Vec<&str>, names: &Vec<&str>)
    ensures
        uses_view(final(out)@) == uses_view(old(out)@) + bundle(names_view(root@), names_view(names@)),
        uses_wf(uses_view(old(out)@)) ==> uses_wf(uses_view(final(out)@)),
{
    let ghost base = uses_view(out@);
    let ghost b = bundle(names_view(root@), names_view(names@));
    let mut i: usize = 0;
    while i < names.len()
        invariant
            i <= names@.len(),
            b == bundle(names_view(root@), names_view(names@)),
            uses_view(out@) == base + b.take(i as int),
            uses_wf(base) ==> uses_wf(uses_view(out@)),
        decreases names.len() - i,
    {
        let mut path = Path::new();
        let mut k: usize = 0;
        while k < root.len()
            invariant
                k <= root@.len(),
                path@ == names_view(root@).take(k as int).map_values(|r: Seq<char>| name_seg(r)),
            decreases root.len() - k,
        {
            path.push(IdentOrPounded::Ident(call_site_ident(root[k])));
            assert(names_view(root@).take(k + 1).map_values(|r: Seq<char>| name_seg(r))
                =~= names_view(root@).take(k as int).map_values(|r: Seq<char>| name_seg(r)).push(
                name_seg(root@[k as int]@),
            ));
            k = k + 1;
        }
        assert(names_view(root@).take(root@.len() as int) =~= names_view(root@));
        path.push(IdentOrPounded::Ident(call_site_ident(names[i])));
        let u = Use(path, call_site_ident(names[i]));
        let ghost before = out@;
        out.push(u);
        assert(uses_view(out@) =~= uses_view(before).push(u@));
        assert(b.take(i + 1) =~= b.take(i as int).push(b[i as int]));
        assert(u@ == b[i as int]);
        i = i + 1;
    }
    assert(b.take(names@.len() as int) =~= b);
}

/// The default bindings: those of `core`, then, where `std` is set, those of `std`
/// and of the 2021 edition.
pub fn prelude(std: bool) -> (r: Vec<Use>)
    ensures
        uses_view(r@) == prelude_bindings(std),
        uses_wf(uses_view(r@)),
{
    let mut out: Vec<Use> = Vec::new();
    assert(uses_view(out@) =~= Seq::<Binding>::empty());
    let mut root: Vec<&str> = Vec::new();
    root.push("core");
    root.push("prelude");
    root.push("v1");
    assert(names_view(root@) =~= seq!["core"@, "prelude"@, "v1"@]);
    push_bundle(&mut out, &root, &core_name_list());
    assert(uses_view(out@) =~= core_bundle());
    if std {
        let mut root: Vec<&str> = Vec::new();
        root.push("std");
        root.push("prelude");
        root.push("v1");
        assert(names_view(root@) =~= seq!["std"@, "prelude"@, "v1"@]);
        push_bundle(&mut out, &root, &std_name_list());
        let mut root: Vec<&str> = Vec::new();
        root.push("core");
        root.push("prelude");
        root.push("rust_2021");
        assert(names_view(root@) =~= seq!["core"@, "prelude"@, "rust_2021"@]);
        push_bundle(&mut out, &root, &edition_name_list());
    }
    out
}

} // verus!
