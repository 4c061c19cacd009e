//! Handlers of a Go package's routes that another file of the package
//! defines: endpoints first bound to a synthetic handler are bound to the
//! package's callable of that name.
use vstd::prelude::*;

use crate::go::shared::{package_path, package_path_exec, seen_contains};
use crate::model::{
    callable_view, copy_callable, endpoint_view, endpoints_view, Callable, CallableView, Endpoint, EndpointView,
    Language, ParsedCallable, TypedFileRecord,
};
use crate::text::{
    after_last, after_last_exec, chars_eq, chars_of, starts_with, starts_with_exec, string_of, strip_prefix,
    strip_prefix_exec, strip_suffix, strip_suffix_exec, text_of, trim, trim_end_str, trim_end_str_exec,
    trim_exec, views,
};

verus! {

/// A callable that stands for a handler no file defines.
pub open spec fn is_synthetic_handler(c: CallableView) -> bool {
    starts_with(c.0.1, "handler "@)
}

/// The callables of the package's files, each with its package; synthetic
/// handlers left out.
pub open spec fn file_pairs(f: TypedFileRecord, n: int) -> Seq<(Seq<char>, CallableView)>
    decreases n,
{
    if n <= 0 {
        Seq::empty()
    } else {
        let c = callable_view(f.callables@[n - 1].metadata);
        file_pairs(f, n - 1) + if is_synthetic_handler(c) {
            Seq::empty()
        } else {
            seq![(package_path(f.file_path@), c)]
        }
    }
}

pub open spec fn all_pairs(files: Seq<TypedFileRecord>) -> Seq<(Seq<char>, CallableView)>
    decreases files.len(),
{
    if files.len() == 0 {
        Seq::empty()
    } else {
        let f = files.last();
        all_pairs(files.drop_last()) + if f.language == Language::Go {
            file_pairs(f, f.callables@.len() as int)
        } else {
            Seq::empty()
        }
    }
}

/// The package's callable of a name: none seen, the one seen, or
/// ambiguous (`Some(None)`) once two of the name with different hashes
/// are seen.
pub open spec fn unique_entry(es: Seq<(Seq<char>, CallableView)>, pkg: Seq<char>, name: Seq<char>) -> Option<
    Option<CallableView>,
>
    decreases es.len(),
{
    if es.len() == 0 {
        None
    } else {
        let prev = unique_entry(es.drop_last(), pkg, name);
        let e = es.last();
        if e.0 == pkg && e.1.0.0 == name {
            match prev {
                None => Some(Some(e.1)),
                Some(Some(x)) => if x.2.0 != e.1.2.0 {
                    Some(None)
                } else {
                    prev
                },
                Some(None) => Some(None),
            }
        } else {
            prev
        }
    }
}

/// A handler reference without a trailing `()` and an `http.HandlerFunc(...)`
/// wrapper.
pub open spec fn unwrap_handler(reference: Seq<char>) -> Seq<char> {
    let t = trim_end_str(trim(reference), "()"@);
    match strip_prefix(t, "http.HandlerFunc("@) {
        Some(inner) => match strip_suffix(inner, ")"@) {
            Some(x) => trim(x),
            None => trim(t),
        },
        None => trim(t),
    }
}

/// The package callable a handler reference names by its last segment.
pub open spec fn resolve_reference(files: Seq<TypedFileRecord>, pkg: Seq<char>, reference: Seq<char>) -> Option<
    CallableView,
> {
    match unique_entry(all_pairs(files), pkg, after_last(unwrap_handler(reference), '.')) {
        Some(Some(c)) => Some(c),
        _ => None,
    }
}

/// The name of the last synthetic handler of a file with hash `h`.
pub open spec fn synthetic_reference(cs: Seq<ParsedCallable>, h: Seq<char>) -> Option<Seq<char>>
    decreases cs.len(),
{
    if cs.len() == 0 {
        None
    } else {
        let c = callable_view(cs.last().metadata);
        if is_synthetic_handler(c) && c.2.0 == h {
            Some(c.0.0)
        } else {
            synthetic_reference(cs.drop_last(), h)
        }
    }
}

/// The callable an endpoint of a Go file is bound to instead of its
/// synthetic handler.
pub open spec fn endpoint_resolution(files: Seq<TypedFileRecord>, f: TypedFileRecord, e: EndpointView) -> Option<
    CallableView,
> {
    match synthetic_reference(f.callables@, e.1) {
        Some(reference) => resolve_reference(files, package_path(f.file_path@), reference),
        None => None,
    }
}

pub open spec fn resolved_endpoint(files: Seq<TypedFileRecord>, f: TypedFileRecord, e: EndpointView) -> EndpointView {
    match endpoint_resolution(files, f, e) {
        Some(c) => (c.0.1, c.2.0, e.2, e.3, e.4, e.5, e.6),
        None => e,
    }
}

/// The synthetic hashes a file's endpoints were bound away from.
pub open spec fn resolved_hashes(files: Seq<TypedFileRecord>, f: TypedFileRecord, es: Seq<EndpointView>) -> Seq<
    Seq<char>,
>
    decreases es.len(),
{
    if es.len() == 0 {
        Seq::empty()
    } else {
        resolved_hashes(files, f, es.drop_last()) + if endpoint_resolution(files, f, es.last()) is Some {
            seq![es.last().1]
        } else {
            Seq::empty()
        }
    }
}

/// The callables whose hash is not among `hs`, in order.
pub open spec fn kept_callables(cs: Seq<ParsedCallable>, hs: Seq<Seq<char>>) -> Seq<ParsedCallable>
    decreases cs.len(),
{
    if cs.len() == 0 {
        Seq::empty()
    } else {
        kept_callables(cs.drop_last(), hs) + if hs.contains(cs.last().metadata.hash@) {
            Seq::empty()
        } else {
            seq![cs.last()]
        }
    }
}

fn unwrap_handler_exec(reference: &[char]) -> (r: Vec<char>)
    ensures
        r@ == unwrap_handler(reference@),
{
    let t = trim_end_str_exec(&trim_exec(reference), &chars_of("()"));
    match strip_prefix_exec(&t, &chars_of("http.HandlerFunc(")) {
        Some(inner) => match strip_suffix_exec(&inner, &chars_of(")")) {
            Some(x) => trim_exec(&x),
            None => trim_exec(&t),
        },
        None => trim_exec(&t),
    }
}

fn is_synthetic_exec(c: &Callable) -> (r: bool)
    ensures
        r == is_synthetic_handler(callable_view(*c)),
{
    starts_with_exec(&text_of(&c.signature), &chars_of("handler "))
}

/// The package's callable named `name`, scanning the files as
/// `unique_entry` does.
fn unique_lookup(files: &Vec<TypedFileRecord>, pkg: &[char], name: &[char]) -> (r: Option<Option<Callable>>)
    ensures
        match (r, unique_entry(all_pairs(files@), pkg@, name@)) {
            (None, None) => true,
            (Some(None), Some(None)) => true,
            (Some(Some(c)), Some(Some(v))) => callable_view(c) == v,
            _ => false,
        },
{
    let mut state: Option<Option<Callable>> = None;
    let mut i: usize = 0;
    while i < files.len()
        invariant
            i <= files@.len(),
            match (state, unique_entry(all_pairs(files@.take(i as int)), pkg@, name@)) {
                (None, None) => true,
                (Some(None), Some(None)) => true,
                (Some(Some(c)), Some(Some(v))) => callable_view(c) == v,
                _ => false,
            },
        decreases files.len() - i,
    {
        let f = &files[i];
        let ghost base = all_pairs(files@.take(i as int));
        assert(files@.take(i + 1).drop_last() =~= files@.take(i as int));
        assert(files@.take(i + 1).last() == files@[i as int]);
        if f.language == Language::Go {
            let fpkg = text_of(&package_path_exec(f.file_path.as_str()));
            let same_pkg = chars_eq(&fpkg, pkg);
            let mut j: usize = 0;
            assert(base + file_pairs(*f, 0) =~= base);
            while j < f.callables.len()
                invariant
                    j <= f.callables@.len(),
                    fpkg@ == package_path(f.file_path@),
                    same_pkg == (fpkg@ == pkg@),
                    match (state, unique_entry(base + file_pairs(*f, j as int), pkg@, name@)) {
                        (None, None) => true,
                        (Some(None), Some(None)) => true,
                        (Some(Some(c)), Some(Some(v))) => callable_view(c) == v,
                        _ => false,
                    },
                decreases f.callables.len() - j,
            {
                let c = &f.callables[j].metadata;
                let ghost before = base + file_pairs(*f, j as int);
                if is_synthetic_exec(c) {
                    assert(base + file_pairs(*f, j + 1) =~= before);
                } else {
                    let ghost e = (package_path(f.file_path@), callable_view(*c));
                    assert(base + file_pairs(*f, j + 1) =~= before.push(e));
                    assert((before.push(e)).drop_last() =~= before);
                    if same_pkg && chars_eq(&text_of(&c.name), name) {
                        let next = match &state {
                            None => Some(Some(copy_callable(c))),
                            Some(Some(x)) => {
                                if chars_eq(&text_of(&x.hash), &text_of(&c.hash)) {
                                    Some(Some(copy_callable(x)))
                                } else {
                                    Some(None)
                                }
                            },
                            Some(None) => Some(None),
                        };
                        state = next;
                    }
                }
                j = j + 1;
            }
            assert(base + file_pairs(*f, f.callables@.len() as int) =~= all_pairs(files@.take(i + 1)));
        } else {
            assert(base =~= all_pairs(files@.take(i + 1)));
        }
        i = i + 1;
    }
    assert(files@.take(files@.len() as int) =~= files@);
    state
}

fn synthetic_reference_exec(cs: &Vec<ParsedCallable>, h: &[char]) -> (r: Option<String>)
    ensures
        r matches Some(x) ==> synthetic_reference(cs@, h@) == Some(x@),
        r is None ==> synthetic_reference(cs@, h@) is None,
{
    let mut i: usize = cs.len();
    assert(cs@.take(i as int) =~= cs@);
    while i > 0
        invariant
            i <= cs@.len(),
            synthetic_reference(cs@, h@) == synthetic_reference(cs@.take(i as int), h@),
        decreases i,
    {
        assert(cs@.take(i as int).drop_last() =~= cs@.take(i - 1));
        assert(cs@.take(i as int).last() == cs@[i - 1]);
        let c = &cs[i - 1].metadata;
        if is_synthetic_exec(c) && chars_eq(&text_of(&c.hash), h) {
            return Some(c.name.clone());
        }
        i = i - 1;
    }
    assert(cs@.take(0) =~= Seq::<ParsedCallable>::empty());
    None
}

fn endpoint_resolution_exec(files: &Vec<TypedFileRecord>, f: &TypedFileRecord, e: &Endpoint) -> (r: Option<Callable>)
    ensures
        r matches Some(c) ==> endpoint_resolution(files@, *f, endpoint_view(*e)) == Some(callable_view(c)),
        r is None ==> endpoint_resolution(files@, *f, endpoint_view(*e)) is None,
{
    let reference = match synthetic_reference_exec(&f.callables, &text_of(&e.function_hash)) {
        Some(x) => x,
        None => return None,
    };
    let pkg = text_of(&package_path_exec(f.file_path.as_str()));
    let name = after_last_exec(&unwrap_handler_exec(&text_of(&reference)), '.');
    match unique_lookup(files, &pkg, &name) {
        Some(Some(c)) => Some(c),
        _ => None,
    }
}

/// What every endpoint of every Go file is bound to (nothing for the files
/// of other languages).
fn endpoint_resolutions(files: &Vec<TypedFileRecord>) -> (r: Vec<Vec<Option<Callable>>>)
    ensures
        r@.len() == files@.len(),
        forall|i: int|
            0 <= i < files@.len() && files@[i].language == Language::Go ==> (#[trigger] r@[i])@.len()
                == files@[i].endpoints@.len() && forall|k: int|
                0 <= k < files@[i].endpoints@.len() ==> match (#[trigger] r@[i]@[k], endpoint_resolution(
                    files@,
                    files@[i],
                    endpoint_view(files@[i].endpoints@[k]),
                )) {
                    (Some(c), Some(v)) => callable_view(c) == v,
                    (None, None) => true,
                    _ => false,
                },
{
    let mut out: Vec<Vec<Option<Callable>>> = Vec::new();
    let mut i: usize = 0;
    while i < files.len()
        invariant
            i <= files@.len(),
            out@.len() == i,
            forall|a: int|
                0 <= a < i && files@[a].language == Language::Go ==> (#[trigger] out@[a])@.len()
                    == files@[a].endpoints@.len() && forall|k: int|
                    0 <= k < files@[a].endpoints@.len() ==> match (#[trigger] out@[a]@[k], endpoint_resolution(
                        files@,
                        files@[a],
                        endpoint_view(files@[a].endpoints@[k]),
                    )) {
                        (Some(c), Some(v)) => callable_view(c) == v,
                        (None, None) => true,
                        _ => false,
                    },
        decreases files.len() - i,
    {
        let f = &files[i];
        let mut row: Vec<Option<Callable>> = Vec::new();
        if f.language == Language::Go {
            let mut k: usize = 0;
            while k < f.endpoints.len()
                invariant
                    k <= f.endpoints@.len(),
                    row@.len() == k,
                    forall|q: int|
                        0 <= q < k ==> match (#[trigger] row@[q], endpoint_resolution(
                            files@,
                            *f,
                            endpoint_view(f.endpoints@[q]),
                        )) {
                            (Some(c), Some(v)) => callable_view(c) == v,
                            (None, None) => true,
                            _ => false,
                        },
                decreases f.endpoints.len() - k,
            {
                row.push(endpoint_resolution_exec(files, f, &f.endpoints[k]));
                k = k + 1;
            }
        }
        out.push(row);
        i = i + 1;
    }
    out
}

/// A Go file with its endpoints bound away from synthetic handlers and
/// the synthetic handlers they were bound away from removed.
pub open spec fn resolved_file(files: Seq<TypedFileRecord>, f: TypedFileRecord, g: TypedFileRecord) -> bool {
    let ev = endpoints_view(f.endpoints@);
    &&& endpoints_view(g.endpoints@) == ev.map_values(|e: EndpointView| resolved_endpoint(files, f, e))
    &&& g.callables@ == kept_callables(f.callables@, resolved_hashes(files, f, ev))
    &&& g.file_path == f.file_path
    &&& g.language == f.language
    &&& g.imports == f.imports
    &&& g.call_statements == f.call_statements
    &&& g.assignments == f.assignments
    &&& g.raw_restcalls == f.raw_restcalls
    &&& g.raw_message_edges == f.raw_message_edges
}

fn resolve_file(
    Ghost(files): Ghost<Seq<TypedFileRecord>>,
    mut f: TypedFileRecord,
    row: &Vec<Option<Callable>>,
) -> (g: TypedFileRecord)
    requires
        row@.len() == f.endpoints@.len(),
        forall|k: int|
            0 <= k < f.endpoints@.len() ==> match (#[trigger] row@[k], endpoint_resolution(
                files,
                f,
                endpoint_view(f.endpoints@[k]),
            )) {
                (Some(c), Some(v)) => callable_view(c) == v,
                (None, None) => true,
                _ => false,
            },
    ensures
        resolved_file(files, f, g),
{
    let ghost f0 = f;
    let ghost ev = endpoints_view(f0.endpoints@);
    let mut old_eps: Vec<Endpoint> = Vec::new();
    std::mem::swap(&mut old_eps, &mut f.endpoints);
    let n = old_eps.len();
    let mut eps: Vec<Endpoint> = Vec::new();
    let mut hashes: Vec<Vec<char>> = Vec::new();
    let mut k: usize = 0;
    while k < n
        invariant
            k <= n,
            n == f0.endpoints@.len(),
            ev == endpoints_view(f0.endpoints@),
            old_eps@ == f0.endpoints@.skip(k as int),
            row@.len() == n,
            forall|q: int|
                0 <= q < n ==> match (#[trigger] row@[q], endpoint_resolution(
                    files,
                    f0,
                    endpoint_view(f0.endpoints@[q]),
                )) {
                    (Some(c), Some(v)) => callable_view(c) == v,
                    (None, None) => true,
                    _ => false,
                },
            endpoints_view(eps@) == ev.take(k as int).map_values(|e: EndpointView| resolved_endpoint(files, f0, e)),
            views(hashes@) == resolved_hashes(files, f0, ev.take(k as int)),
        decreases n - k,
    {
        let mut e = old_eps.remove(0);
        assert(e == f0.endpoints@[k as int]);
        assert(f0.endpoints@.skip(k as int).remove(0) =~= f0.endpoints@.skip(k + 1));
        let ghost e0 = endpoint_view(e);
        assert(ev[k as int] == e0);
        assert(ev.take(k + 1).drop_last() =~= ev.take(k as int));
        let ghost before_h = views(hashes@);
        match &row[k] {
            Some(c) => {
                hashes.push(text_of(&e.function_hash));
                assert(views(hashes@) =~= before_h.push(e0.1));
                e.function_name = c.signature.clone();
                e.function_hash = c.hash.clone();
            },
            None => {},
        }
        let ghost before_e = endpoints_view(eps@);
        eps.push(e);
        assert(endpoints_view(eps@) =~= before_e.push(resolved_endpoint(files, f0, e0)));
        assert(ev.take(k + 1).map_values(|x: EndpointView| resolved_endpoint(files, f0, x)) =~= ev.take(
            k as int,
        ).map_values(|x: EndpointView| resolved_endpoint(files, f0, x)).push(resolved_endpoint(files, f0, e0)));
        k = k + 1;
    }
    assert(ev.take(n as int) =~= ev);
    f.endpoints = eps;
    let ghost hs = views(hashes@);
    let mut old_cs: Vec<ParsedCallable> = Vec::new();
    std::mem::swap(&mut old_cs, &mut f.callables);
    let m = old_cs.len();
    let mut cs: Vec<ParsedCallable> = Vec::new();
    let mut j: usize = 0;
    while j < m
        invariant
            j <= m,
            m == f0.callables@.len(),
            old_cs@ == f0.callables@.skip(j as int),
            views(hashes@) == hs,
            cs@ == kept_callables(f0.callables@.take(j as int), hs),
        decreases m - j,
    {
        let c = old_cs.remove(0);
        assert(c == f0.callables@[j as int]);
        assert(f0.callables@.skip(j as int).remove(0) =~= f0.callables@.skip(j + 1));
        assert(f0.callables@.take(j + 1).drop_last() =~= f0.callables@.take(j as int));
        assert(f0.callables@.take(j + 1).last() == c);
        if !seen_contains(&hashes, &text_of(&c.metadata.hash)) {
            let ghost before = cs@;
            cs.push(c);
            assert(cs@ =~= before + seq![c]);
        } else {
            assert(cs@ =~= cs@ + Seq::<ParsedCallable>::empty());
        }
        j = j + 1;
    }
    assert(f0.callables@.take(m as int) =~= f0.callables@);
    f.callables = cs;
    f
}

/// Binds the endpoints of every Go file that name a handler defined in
/// another file of the same package (by a synthetic handler of the file)
/// to that handler, unless the package defines two different handlers of
/// that name; the synthetic handlers so replaced are removed.  Files of
/// other languages are left as they are.
pub fn resolve_package_endpoint_handlers(files: &mut Vec<TypedFileRecord>)
    ensures
        final(files)@.len() == old(files)@.len(),
        forall|i: int|
            0 <= i < old(files)@.len() ==> if old(files)@[i].language == Language::Go {
                resolved_file(old(files)@, old(files)@[i], #[trigger] final(files)@[i])
            } else {
                final(files)@[i] == old(files)@[i]
            },
{
    let res = endpoint_resolutions(files);
    let ghost orig = files@;
    let mut pending: Vec<TypedFileRecord> = Vec::new();
    std::mem::swap(&mut pending, files);
    let n = pending.len();
    let mut done: Vec<TypedFileRecord> = Vec::new();
    let mut i: usize = 0;
    while i < n
        invariant
            i <= n,
            n == orig.len(),
            res@.len() == n,
            pending@ == orig.skip(i as int),
            done@.len() == i,
            forall|a: int|
                0 <= a < orig.len() && orig[a].language == Language::Go ==> (#[trigger] res@[a])@.len()
                    == orig[a].endpoints@.len() && forall|k: int|
                    0 <= k < orig[a].endpoints@.len() ==> match (#[trigger] res@[a]@[k], endpoint_resolution(
                        orig,
                        orig[a],
                        endpoint_view(orig[a].endpoints@[k]),
                    )) {
                        (Some(c), Some(v)) => callable_view(c) == v,
                        (None, None) => true,
                        _ => false,
                    },
            forall|a: int|
                0 <= a < i ==> if orig[a].language == Language::Go {
                    resolved_file(orig, orig[a], #[trigger] done@[a])
                } else {
                    done@[a] == orig[a]
                },
        decreases n - i,
    {
        let f = pending.remove(0);
        assert(f == orig[i as int]);
        assert(orig.skip(i as int).remove(0) =~= orig.skip(i + 1));
        let g = if f.language == Language::Go {
            resolve_file(Ghost(orig), f, &res[i])
        } else {
            f
        };
        done.push(g);
        i = i + 1;
    }
    *files = done;
}

} // verus!
