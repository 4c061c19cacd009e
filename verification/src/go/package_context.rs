//! Identification of every Go file of a project with the globals and
//! callables of its whole package (the files of one directory).
use vstd::prelude::*;

use crate::bindings::Bindings;
use crate::go::message_edge_strategies::{call_edges_ok, edge_count};
use crate::go::pipeline::{
    call_target, edges_match, identify_with_package_context, messages_readable, rest_targets, restcalls_match,
};
use crate::go::shared::{package_path, package_path_exec};
use crate::model::{scope_view, Assignment, AssignmentKey, Language, ParsedCallable, TypedFileRecord};
use crate::text::{chars_eq, text_of};

verus! {

/// Two records of one file that agree on all but their callables and
/// identified records.
pub open spec fn same_context(a: TypedFileRecord, b: TypedFileRecord) -> bool {
    &&& a.file_path == b.file_path
    &&& a.language == b.language
    &&& a.imports == b.imports
    &&& a.endpoints == b.endpoints
    &&& a.call_statements == b.call_statements
    &&& a.assignments == b.assignments
}

proof fn lemma_targets_context(
    a: TypedFileRecord,
    b: TypedFileRecord,
    calls: Seq<crate::model::CallStatement>,
    g: (Map<Seq<char>, Seq<char>>, Seq<Seq<char>>),
    cs: Seq<ParsedCallable>,
)
    requires
        same_context(a, b),
    ensures
        rest_targets(a, calls, g, cs) == rest_targets(b, calls, g, cs),
    decreases calls.len(),
{
    if calls.len() > 0 {
        lemma_targets_context(a, b, calls.drop_last(), g, cs);
        assert(call_target(a, calls.last(), g, cs) == call_target(b, calls.last(), g, cs));
    }
}

proof fn lemma_edges_context(
    es: Seq<crate::model::MessageEdge>,
    a: TypedFileRecord,
    b: TypedFileRecord,
    calls: Seq<crate::model::CallStatement>,
)
    requires
        same_context(a, b),
    ensures
        edges_match(es, a, calls) == edges_match(es, b, calls),
    decreases calls.len(),
{
    if calls.len() > 0 {
        let n = edge_count(a, calls.last(), false);
        assert(n == edge_count(b, calls.last(), false));
        lemma_edges_context(es.take(es.len() - n), a, b, calls.drop_last());
        assert(call_edges_ok(es.skip(es.len() - n), a, calls.last(), false) == call_edges_ok(
            es.skip(es.len() - n),
            b,
            calls.last(),
            false,
        ));
    }
}

/// What identification makes of a file does not depend on its own
/// callables or on what was identified of it before.
pub proof fn lemma_identification_context(
    rs: Seq<crate::model::RestCall>,
    es: Seq<crate::model::MessageEdge>,
    a: TypedFileRecord,
    b: TypedFileRecord,
    g: (Map<Seq<char>, Seq<char>>, Seq<Seq<char>>),
    cs: Seq<ParsedCallable>,
)
    requires
        same_context(a, b),
    ensures
        restcalls_match(rs, a, a.call_statements@, g, cs) == restcalls_match(rs, b, b.call_statements@, g, cs),
        edges_match(es, a, a.call_statements@) == edges_match(es, b, b.call_statements@),
        messages_readable(a) == messages_readable(b),
{
    lemma_targets_context(a, b, a.call_statements@, g, cs);
    lemma_edges_context(es, a, b, a.call_statements@);
    assert(a.call_statements@ == b.call_statements@);
    assert(a.file_path@ == b.file_path@);
    assert(a.file_path@ == b.file_path@);
}

/// A Go file of the package in directory `p`.
pub open spec fn in_package(f: TypedFileRecord, p: Seq<char>) -> bool {
    f.language == Language::Go && package_path(f.file_path@) == p
}

/// The bindings `st` with the global assignments of `a` added in order, a
/// later one replacing an earlier one of the same name.
pub open spec fn add_globals(
    st: (Map<Seq<char>, Seq<char>>, Seq<Seq<char>>),
    a: Seq<(AssignmentKey, Assignment)>,
) -> (Map<Seq<char>, Seq<char>>, Seq<Seq<char>>)
    decreases a.len(),
{
    if a.len() == 0 {
        st
    } else {
        let (m, keys) = add_globals(st, a.drop_last());
        let e = a.last();
        if scope_view(e.0.scope) == (0int, Seq::<char>::empty()) {
            (
                m.insert(e.1.variable_name@, e.1.value@),
                if m.contains_key(e.1.variable_name@) {
                    keys
                } else {
                    keys.push(e.1.variable_name@)
                },
            )
        } else {
            (m, keys)
        }
    }
}

/// The globals of the package in `p`, from its files among the first `k`,
/// in order.
pub open spec fn package_globals(files: Seq<TypedFileRecord>, p: Seq<char>, k: int) -> (
    Map<Seq<char>, Seq<char>>,
    Seq<Seq<char>>,
)
    decreases k,
{
    if k <= 0 || k > files.len() {
        (Map::empty(), Seq::empty())
    } else {
        let prev = package_globals(files, p, k - 1);
        if in_package(files[k - 1], p) {
            add_globals(prev, files[k - 1].assignments@)
        } else {
            prev
        }
    }
}

/// The callables of the package in `p`, from its files among the first
/// `k`, in order.
pub open spec fn package_callables(files: Seq<TypedFileRecord>, p: Seq<char>, k: int) -> Seq<ParsedCallable>
    decreases k,
{
    if k <= 0 || k > files.len() {
        Seq::empty()
    } else {
        let prev = package_callables(files, p, k - 1);
        if in_package(files[k - 1], p) {
            prev + files[k - 1].callables@
        } else {
            prev
        }
    }
}

/// Two lists of records of the same files, agreeing on all but what was
/// identified.
pub open spec fn same_files(a: Seq<TypedFileRecord>, b: Seq<TypedFileRecord>) -> bool {
    &&& a.len() == b.len()
    &&& forall|j: int| 0 <= j < a.len() ==> same_context(#[trigger] a[j], b[j]) && a[j].callables@ == b[j].callables@
}

proof fn lemma_package_same(a: Seq<TypedFileRecord>, b: Seq<TypedFileRecord>, p: Seq<char>, k: int)
    requires
        same_files(a, b),
    ensures
        package_globals(a, p, k) == package_globals(b, p, k),
        package_callables(a, p, k) == package_callables(b, p, k),
    decreases k,
{
    if k > 0 && k <= a.len() {
        lemma_package_same(a, b, p, k - 1);
        assert(same_context(a[k - 1], b[k - 1]));
    }
}

fn add_globals_exec(b: &mut Bindings, a: &Vec<(AssignmentKey, Assignment)>)
    ensures
        (final(b)@, final(b).keys()) == add_globals((old(b)@, old(b).keys()), a@),
{
    let ghost st = (b@, b.keys());
    let mut i: usize = 0;
    assert(a@.take(0) =~= Seq::<(AssignmentKey, Assignment)>::empty());
    while i < a.len()
        invariant
            i <= a@.len(),
            (b@, b.keys()) == add_globals(st, a@.take(i as int)),
        decreases a.len() - i,
    {
        assert(a@.take(i + 1).drop_last() =~= a@.take(i as int));
        assert(a@.take(i + 1).last() == a@[i as int]);
        let (k, v) = &a[i];
        match k.scope {
            crate::model::Scope::Global => {
                b.insert(v.variable_name.clone(), v.value.clone());
            },
            _ => {},
        }
        i = i + 1;
    }
    assert(a@.take(a@.len() as int) =~= a@);
}

/// The directories of the files' paths: `pkgs[j]` is the package of file `j`.
pub open spec fn packages_of(files: Seq<TypedFileRecord>, pkgs: Seq<Vec<char>>) -> bool {
    &&& pkgs.len() == files.len()
    &&& forall|j: int| 0 <= j < files.len() ==> (#[trigger] pkgs[j])@ == package_path(files[j].file_path@)
}

fn in_package_exec(f: &TypedFileRecord, fp: &Vec<char>, p: &Vec<char>) -> (r: bool)
    requires
        fp@ == package_path(f.file_path@),
    ensures
        r == in_package(*f, p@),
{
    match f.language {
        Language::Go => chars_eq(fp, p),
        _ => false,
    }
}

fn package_globals_exec(files: &Vec<TypedFileRecord>, pkgs: &Vec<Vec<char>>, p: &Vec<char>) -> (r: Bindings)
    requires
        packages_of(files@, pkgs@),
    ensures
        (r@, r.keys()) == package_globals(files@, p@, files@.len() as int),
{
    let mut b = Bindings::new();
    let mut j: usize = 0;
    while j < files.len()
        invariant
            j <= files@.len(),
            packages_of(files@, pkgs@),
            (b@, b.keys()) == package_globals(files@, p@, j as int),
        decreases files.len() - j,
    {
        if in_package_exec(&files[j], &pkgs[j], p) {
            add_globals_exec(&mut b, &files[j].assignments);
        }
        j = j + 1;
    }
    b
}

/// The callables of the package's files, moved out of them in order; those
/// files are left with none, and the number each had is recorded.
fn take_package_callables(files: &mut Vec<TypedFileRecord>, pkgs: &Vec<Vec<char>>, p: &Vec<char>) -> (r: (
    Vec<ParsedCallable>,
    Vec<usize>,
))
    requires
        packages_of(old(files)@, pkgs@),
    ensures
        final(files)@.len() == old(files)@.len(),
        r.0@ == package_callables(old(files)@, p@, old(files)@.len() as int),
        r.1@.len() == old(files)@.len(),
        forall|j: int|
            0 <= j < old(files)@.len() ==> {
                &&& same_context(#[trigger] final(files)@[j], old(files)@[j])
                &&& final(files)@[j].raw_restcalls == old(files)@[j].raw_restcalls
                &&& final(files)@[j].raw_message_edges == old(files)@[j].raw_message_edges
                &&& in_package(old(files)@[j], p@) ==> final(files)@[j].callables@.len() == 0 && r.1@[j]
                    == old(files)@[j].callables@.len()
                &&& !in_package(old(files)@[j], p@) ==> final(files)@[j] == old(files)@[j]
            },
{
    let ghost orig = files@;
    let mut pc: Vec<ParsedCallable> = Vec::new();
    let mut lens: Vec<usize> = Vec::new();
    let mut j: usize = 0;
    while j < files.len()
        invariant
            j <= files@.len(),
            files@.len() == orig.len(),
            packages_of(orig, pkgs@),
            pc@ == package_callables(orig, p@, j as int),
            lens@.len() == j,
            forall|k: int|
                0 <= k < orig.len() ==> {
                    &&& same_context(#[trigger] files@[k], orig[k])
                    &&& files@[k].raw_restcalls == orig[k].raw_restcalls
                    &&& files@[k].raw_message_edges == orig[k].raw_message_edges
                    &&& k < j && in_package(orig[k], p@) ==> files@[k].callables@.len() == 0 && lens@[k]
                        == orig[k].callables@.len()
                    &&& (k >= j || !in_package(orig[k], p@)) ==> files@[k] == orig[k]
                },
        decreases files.len() - j,
    {
        assert(files@[j as int] == orig[j as int]);
        if in_package_exec(&files[j], &pkgs[j], p) {
            let mut moved: Vec<ParsedCallable> = Vec::new();
            std::mem::swap(&mut moved, &mut files[j].callables);
            let ghost mv = moved@;
            assert(mv == orig[j as int].callables@);
            lens.push(moved.len());
            pc.append(&mut moved);
        } else {
            lens.push(0);
        }
        j = j + 1;
    }
    (pc, lens)
}

/// Puts back into the package's files the callables taken out of them.
fn restore_package_callables(
    files: &mut Vec<TypedFileRecord>,
    pkgs: &Vec<Vec<char>>,
    p: &Vec<char>,
    pc: Vec<ParsedCallable>,
    lens: &Vec<usize>,
    Ghost(orig): Ghost<Seq<TypedFileRecord>>,
)
    requires
        old(files)@.len() == orig.len(),
        packages_of(orig, pkgs@),
        pc@ == package_callables(orig, p@, orig.len() as int),
        lens@.len() == orig.len(),
        forall|j: int|
            0 <= j < orig.len() ==> {
                &&& same_context(#[trigger] old(files)@[j], orig[j])
                &&& in_package(orig[j], p@) ==> lens@[j] == orig[j].callables@.len()
            },
    ensures
        final(files)@.len() == old(files)@.len(),
        forall|j: int|
            0 <= j < orig.len() ==> {
                &&& same_context(#[trigger] final(files)@[j], old(files)@[j])
                &&& final(files)@[j].raw_restcalls == old(files)@[j].raw_restcalls
                &&& final(files)@[j].raw_message_edges == old(files)@[j].raw_message_edges
                &&& in_package(orig[j], p@) ==> final(files)@[j].callables@ == orig[j].callables@
                &&& !in_package(orig[j], p@) ==> final(files)@[j] == old(files)@[j]
            },
{
    let ghost start = files@;
    let mut pc = pc;
    let mut j: usize = files.len();
    while j > 0
        invariant
            j <= files@.len(),
            files@.len() == orig.len(),
            start.len() == orig.len(),
            packages_of(orig, pkgs@),
            lens@.len() == orig.len(),
            pc@ == package_callables(orig, p@, j as int),
            forall|k: int|
                0 <= k < orig.len() ==> {
                    &&& same_context(#[trigger] start[k], orig[k])
                    &&& in_package(orig[k], p@) ==> lens@[k] == orig[k].callables@.len()
                },
            forall|k: int|
                0 <= k < orig.len() ==> {
                    &&& same_context(#[trigger] files@[k], start[k])
                    &&& files@[k].raw_restcalls == start[k].raw_restcalls
                    &&& files@[k].raw_message_edges == start[k].raw_message_edges
                    &&& k >= j && in_package(orig[k], p@) ==> files@[k].callables@ == orig[k].callables@
                    &&& (k < j || !in_package(orig[k], p@)) ==> files@[k] == start[k]
                },
        decreases j,
    {
        let i = j - 1;
        assert(same_context(start[i as int], orig[i as int]));
        assert(files@[i as int] == start[i as int]);
        if in_package_exec(&files[i], &pkgs[i], p) {
            let n = lens[i];
            assert(pc@ == package_callables(orig, p@, i as int) + orig[i as int].callables@);
            let mut back = pc.split_off(pc.len() - n);
            assert(back@ =~= orig[i as int].callables@);
            assert(pc@ =~= package_callables(orig, p@, i as int));
            std::mem::swap(&mut back, &mut files[i].callables);
        } else {
            assert(pc@ == package_callables(orig, p@, i as int));
        }
        j = i;
    }
}

/// What the project's identification makes of file `i`: a Go file gets the
/// requests and message edges of its calls, evaluated with the globals and
/// callables of its package (every Go file of its directory, in order);
/// every file keeps all else.
pub open spec fn identified_in_project(old_files: Seq<TypedFileRecord>, f: TypedFileRecord, i: int) -> bool {
    let o = old_files[i];
    let p = package_path(o.file_path@);
    let n = old_files.len() as int;
    &&& same_context(f, o)
    &&& f.callables@ == o.callables@
    &&& o.language != Language::Go ==> f == o
    &&& o.language == Language::Go ==> {
        &&& restcalls_match(f.raw_restcalls@, o, o.call_statements@, package_globals(old_files, p, n), package_callables(old_files, p, n))
        &&& edges_match(f.raw_message_edges@, o, o.call_statements@)
    }
}

/// Identifies the requests and message edges of every Go file with the
/// globals and callables of its whole package.
pub fn identify_project_restcalls(files: &mut Vec<TypedFileRecord>)
    requires
        forall|i: int|
            0 <= i < old(files)@.len() && old(files)@[i].language == Language::Go ==> messages_readable(
                #[trigger] old(files)@[i],
            ),
    ensures
        final(files)@.len() == old(files)@.len(),
        forall|i: int| 0 <= i < old(files)@.len() ==> identified_in_project(old(files)@, #[trigger] final(files)@[i], i),
{
    let ghost orig = files@;
    let n = files.len();
    let mut pkgs: Vec<Vec<char>> = Vec::new();
    let mut j: usize = 0;
    while j < n
        invariant
            n == files@.len(),
            files@ == orig,
            j <= n,
            pkgs@.len() == j,
            forall|k: int| 0 <= k < j ==> (#[trigger] pkgs@[k])@ == package_path(orig[k].file_path@),
        decreases n - j,
    {
        pkgs.push(text_of(&package_path_exec(files[j].file_path.as_str())));
        j = j + 1;
    }
    assert(packages_of(orig, pkgs@));
    let mut i: usize = 0;
    while i < n
        invariant
            n == files@.len(),
            n == orig.len(),
            i <= n,
            packages_of(orig, pkgs@),
            same_files(files@, orig),
            forall|k: int| 0 <= k < n && orig[k].language != Language::Go ==> #[trigger] files@[k] == orig[k],
            forall|k: int|
                0 <= k < n && orig[k].language == Language::Go ==> messages_readable(#[trigger] orig[k]),
            forall|k: int|
                0 <= k < i && orig[k].language == Language::Go ==> identified_in_project(orig, #[trigger] files@[k], k),
            forall|k: int|
                i <= k < n && orig[k].language == Language::Go ==> (#[trigger] files@[k]).raw_restcalls == orig[k].raw_restcalls,
        decreases n - i,
    {
        let ghost cur = files@;
        assert(same_context(cur[i as int], orig[i as int]));
        if files[i].language == Language::Go {
            let ghost p = pkgs@[i as int]@;
            assert(packages_of(cur, pkgs@)) by {
                assert forall|k: int| 0 <= k < cur.len() implies (#[trigger] pkgs@[k])@ == package_path(cur[k].file_path@) by {
                    assert(same_context(cur[k], orig[k]));
                }
            }
            proof {
                lemma_package_same(cur, orig, p, n as int);
            }
            let g = package_globals_exec(&*files, &pkgs, &pkgs[i]);
            let (pc, lens) = take_package_callables(files, &pkgs, &pkgs[i]);
            let ghost taken = files@;
            proof {
                assert(same_context(taken[i as int], cur[i as int]));
                lemma_identification_context(Seq::empty(), Seq::empty(), taken[i as int], orig[i as int], (g@, g.keys()), pc@);
            }
            identify_with_package_context(&mut files[i], &g, &pc);
            let ghost done = files@;
            proof {
                lemma_identification_context(
                    done[i as int].raw_restcalls@,
                    done[i as int].raw_message_edges@,
                    taken[i as int],
                    orig[i as int],
                    (g@, g.keys()),
                    pc@,
                );
                assert forall|k: int| 0 <= k < n implies same_context(#[trigger] done[k], cur[k]) && (in_package(cur[k], p)
                    ==> lens@[k] == cur[k].callables@.len()) by {
                    assert(same_context(taken[k], cur[k]));
                }
            }
            restore_package_callables(files, &pkgs, &pkgs[i], pc, &lens, Ghost(cur));
            proof {
                let fin = files@;
                assert forall|k: int| 0 <= k < n implies same_context(#[trigger] fin[k], orig[k]) && fin[k].callables@
                    == orig[k].callables@ by {
                    assert(same_context(fin[k], done[k]));
                    assert(same_context(done[k], cur[k]));
                    assert(same_context(cur[k], orig[k]));
                    if !in_package(cur[k], p) {
                        assert(fin[k] == done[k]);
                        if k != i {
                            assert(done[k] == taken[k]);
                            assert(taken[k] == cur[k]);
                        }
                    }
                }
                assert forall|k: int| 0 <= k < n && orig[k].language != Language::Go implies #[trigger] fin[k] == orig[k] by {
                    assert(!in_package(cur[k], p));
                    assert(fin[k] == done[k]);
                    assert(done[k] == taken[k]);
                    assert(taken[k] == cur[k]);
                }
                assert forall|k: int| 0 <= k < i + 1 && orig[k].language == Language::Go implies identified_in_project(orig, #[trigger] fin[k], k) by {
                    if k < i {
                        assert(identified_in_project(orig, cur[k], k));
                        assert(fin[k].raw_restcalls == cur[k].raw_restcalls);
                        assert(fin[k].raw_message_edges == cur[k].raw_message_edges);
                    } else {
                        assert(fin[k].raw_restcalls == done[k].raw_restcalls);
                        assert(fin[k].raw_message_edges == done[k].raw_message_edges);
                    }
                }
                assert forall|k: int| i + 1 <= k < n && orig[k].language == Language::Go implies (#[trigger] fin[k]).raw_restcalls == orig[k].raw_restcalls by {
                    assert(fin[k].raw_restcalls == done[k].raw_restcalls);
                    assert(done[k] == taken[k] || k != i);
                }
            }
        }
        i = i + 1;
    }
}

} // verus!
