//! Assignments of Java sources: fields, locals and parameters, keyed by the
//! scope they belong to.
use vstd::prelude::*;

use crate::java::enclosing::{enclosing_function, enclosing_function_exec, first_of_kind, AncestorNode};
use crate::java::params::{callable_params, parse_callable_params};
use crate::model::{opt_view, parameters_view, scope_view, Assignment, AssignmentKey, Scope};
use crate::text::{chars_eq, chars_of, string_of, text_of};

verus! {

/// One capture of an assignment match, in the order of the match: the
/// assigned name, its declared type, its value, or the assignment node
/// itself (given by its ancestors, nearest first).
pub enum AssignmentCapture {
    Name(String),
    Type(String),
    Value(String),
    Assignment(Vec<AncestorNode>),
    Other,
}

/// Finds the assignments of Java sources.
pub struct AssignmentsExtractor;

pub type KeyView = ((int, Seq<char>), Seq<char>);

pub type EntryView = (KeyView, (Seq<char>, Seq<char>, Seq<char>));

pub open spec fn entry_view(e: (AssignmentKey, Assignment)) -> EntryView {
    (
        (scope_view(e.0.scope), e.0.variable_name@),
        (e.1.variable_name@, e.1.variable_type@, e.1.value@),
    )
}

pub open spec fn entries_view(v: Seq<(AssignmentKey, Assignment)>) -> Seq<EntryView> {
    v.map_values(|e: (AssignmentKey, Assignment)| entry_view(e))
}

/// What a match has read so far: name, type, value, scope, and the
/// enclosing function's return type and (name, parameter list).
pub type MatchState = (
    Option<Seq<char>>,
    Option<Seq<char>>,
    Option<Seq<char>>,
    Option<(int, Seq<char>)>,
    Option<Seq<char>>,
    Option<(Seq<char>, Seq<char>)>,
);

pub open spec fn or_text(o: Option<Seq<char>>, d: Seq<char>) -> Seq<char> {
    match o {
        Some(x) => x,
        None => d,
    }
}

/// The scope of an assignment node: its method or constructor (named by
/// type, name and parameters), else its class, else global.
pub open spec fn assignment_scope_step(st: MatchState, ancestors: Seq<AncestorNode>) -> MatchState {
    match enclosing_function(ancestors) {
        Some(i) => {
            let n = ancestors[i];
            match (opt_view(n.name), opt_view(n.parameters)) {
                (Some(name), Some(params)) => match opt_view(n.type_text) {
                    Some(ft) => (
                        st.0,
                        st.1,
                        st.2,
                        Some((1int, ft + " "@ + name + params)),
                        Some(ft),
                        Some((name, params)),
                    ),
                    None => (st.0, st.1, st.2, Some((1int, name + params)), st.4, Some((name, params))),
                },
                _ => st,
            }
        },
        None => match first_of_kind(ancestors, "class_declaration"@) {
            Some(j) => match opt_view(ancestors[j].name) {
                Some(name) => (st.0, st.1, st.2, Some((2int, name)), st.4, st.5),
                None => st,
            },
            None => (st.0, st.1, st.2, Some((0int, Seq::empty())), st.4, st.5),
        },
    }
}

pub open spec fn capture_step(st: MatchState, c: AssignmentCapture) -> MatchState {
    match c {
        AssignmentCapture::Name(v) => (Some(v@), st.1, st.2, st.3, st.4, st.5),
        AssignmentCapture::Type(v) => (st.0, Some(v@), st.2, st.3, st.4, st.5),
        AssignmentCapture::Value(v) => (st.0, st.1, Some(v@), st.3, st.4, st.5),
        AssignmentCapture::Assignment(a) => assignment_scope_step(st, a@),
        AssignmentCapture::Other => st,
    }
}

/// The assignment recorded after a capture, once a name is known.
pub open spec fn emitted(st: MatchState) -> Seq<EntryView> {
    match st.0 {
        Some(n) => seq![
            (
                (
                    match st.3 {
                        Some(s) => s,
                        None => (0int, Seq::empty()),
                    },
                    n,
                ),
                (n, or_text(st.1, "any"@), or_text(st.2, Seq::empty())),
            ),
        ],
        None => Seq::empty(),
    }
}

pub open spec fn initial_state() -> MatchState {
    (None, None, None, None, None, None)
}

/// The state after the captures, and the assignments recorded on the way
/// (one after every capture from the name on).
pub open spec fn run_captures(cs: Seq<AssignmentCapture>) -> (MatchState, Seq<EntryView>)
    decreases cs.len(),
{
    if cs.len() == 0 {
        (initial_state(), Seq::empty())
    } else {
        let prev = run_captures(cs.drop_last());
        let st = capture_step(prev.0, cs.last());
        (st, prev.1 + emitted(st))
    }
}

/// One assignment per declared parameter of the enclosing function, in the
/// function's scope, typed `any` where no type is declared.
pub open spec fn parameter_entries(st: MatchState) -> Seq<EntryView> {
    match st.5 {
        Some((name, params)) => {
            let scope = (
                1int,
                match st.4 {
                    Some(ft) => ft + " "@ + name + params,
                    None => name + params,
                },
            );
            callable_params(params).map_values(
                |p: (Seq<char>, Option<Seq<char>>, Option<Seq<char>>)|
                    ((scope, p.0), (p.0, or_text(p.1, "any"@), or_text(p.2, Seq::empty()))),
            )
        },
        None => Seq::empty(),
    }
}

/// The assignments one match records.
pub open spec fn match_entries(cs: Seq<AssignmentCapture>) -> Seq<EntryView> {
    let r = run_captures(cs);
    r.1 + parameter_entries(r.0)
}

pub open spec fn all_entries(ms: Seq<Vec<AssignmentCapture>>) -> Seq<EntryView>
    decreases ms.len(),
{
    if ms.len() == 0 {
        Seq::empty()
    } else {
        all_entries(ms.drop_last()) + match_entries(ms.last()@)
    }
}

pub open spec fn opt_scope(o: Option<Scope>) -> Option<(int, Seq<char>)> {
    match o {
        Some(s) => Some(scope_view(s)),
        None => None,
    }
}

pub open spec fn opt_pair(o: Option<(String, String)>) -> Option<(Seq<char>, Seq<char>)> {
    match o {
        Some(p) => Some((p.0@, p.1@)),
        None => None,
    }
}

fn copy_scope(s: &Scope) -> (r: Scope)
    ensures
        scope_view(r) == scope_view(*s),
{
    match s {
        Scope::Global => Scope::Global,
        Scope::Function(n) => Scope::Function(n.clone()),
        Scope::Class(n) => Scope::Class(n.clone()),
    }
}

fn or_text_exec(o: &Option<String>, d: &str) -> (r: String)
    ensures
        r@ == or_text(opt_view(*o), d@),
{
    match o {
        Some(x) => x.clone(),
        None => d.to_string(),
    }
}

fn push_entry(out: &mut Vec<(AssignmentKey, Assignment)>, scope: Scope, name: &String, vtype: String, value: String)
    ensures
        entries_view(final(out)@) == entries_view(old(out)@).push(
            ((scope_view(scope), name@), (name@, vtype@, value@)),
        ),
{
    let ghost sv = scope_view(scope);
    out.push(
        (
            AssignmentKey { scope, variable_name: name.clone() },
            Assignment { variable_name: name.clone(), variable_type: vtype, value },
        ),
    );
    assert(entries_view(out@) =~= entries_view(old(out)@).push(((sv, name@), (name@, vtype@, value@))));
}

fn joined(a: &String, b: &String, c: &String) -> (r: String)
    ensures
        r@ == a@ + " "@ + b@ + c@,
{
    let mut v = text_of(a);
    v.push(' ');
    crate::text::append_chars(&mut v, &text_of(b));
    crate::text::append_chars(&mut v, &text_of(c));
    assert(v@ =~= a@ + " "@ + b@ + c@) by {
        reveal_strlit(" ");
    }
    string_of(&v)
}

fn concat2(a: &String, b: &String) -> (r: String)
    ensures
        r@ == a@ + b@,
{
    string_of(&crate::text::concat(&text_of(a), &text_of(b)))
}

impl AssignmentsExtractor {
    fn match_assignments(caps: &Vec<AssignmentCapture>, out: &mut Vec<(AssignmentKey, Assignment)>)
        ensures
            entries_view(final(out)@) == entries_view(old(out)@) + match_entries(caps@),
    {
        let mut name: Option<String> = None;
        let mut vtype: Option<String> = None;
        let mut value: Option<String> = None;
        let mut scope: Option<Scope> = None;
        let mut fn_type: Option<String> = None;
        let mut fn_sig: Option<(String, String)> = None;
        let ghost start = entries_view(out@);
        let mut i: usize = 0;
        while i < caps.len()
            invariant
                i <= caps@.len(),
                (opt_view(name), opt_view(vtype), opt_view(value), opt_scope(scope), opt_view(fn_type), opt_pair(
                    fn_sig,
                )) == run_captures(caps@.take(i as int)).0,
                entries_view(out@) == start + run_captures(caps@.take(i as int)).1,
            decreases caps.len() - i,
        {
            assert(caps@.take(i + 1).drop_last() =~= caps@.take(i as int));
            assert(caps@.take(i + 1).last() == caps@[i as int]);
            match &caps[i] {
                AssignmentCapture::Name(v) => {
                    name = Some(v.clone());
                },
                AssignmentCapture::Type(v) => {
                    vtype = Some(v.clone());
                },
                AssignmentCapture::Value(v) => {
                    value = Some(v.clone());
                },
                AssignmentCapture::Assignment(ancestors) => {
                    match enclosing_function_exec(ancestors.as_slice()) {
                        Some(k) => {
                            let n = &ancestors[k];
                            match (&n.name, &n.parameters) {
                                (Some(fname), Some(params)) => {
                                    match &n.type_text {
                                        Some(ft) => {
                                            scope = Some(Scope::Function(joined(ft, fname, params)));
                                            fn_type = Some(ft.clone());
                                        },
                                        None => {
                                            scope = Some(Scope::Function(concat2(fname, params)));
                                        },
                                    }
                                    fn_sig = Some((fname.clone(), params.clone()));
                                },
                                _ => {},
                            }
                        },
                        None => {
                            proof {
                                crate::java::enclosing::lemma_first_of_kind(ancestors@, "class_declaration"@);
                            }
                            match crate::java::enclosing::get_enclosing_node_by_kind(
                                ancestors.as_slice(),
                                "class_declaration",
                            ) {
                                Some(j) => match &ancestors[j].name {
                                    Some(cname) => {
                                        scope = Some(Scope::Class(cname.clone()));
                                    },
                                    None => {},
                                },
                                None => {
                                    scope = Some(Scope::Global);
                                },
                            }
                        },
                    }
                },
                AssignmentCapture::Other => {},
            }
            let ghost st = run_captures(caps@.take(i + 1)).0;
            assert((opt_view(name), opt_view(vtype), opt_view(value), opt_scope(scope), opt_view(fn_type), opt_pair(
                fn_sig,
            )) == st);
            match &name {
                Some(n) => {
                    let s = match &scope {
                        Some(s) => copy_scope(s),
                        None => Scope::Global,
                    };
                    let vt = or_text_exec(&vtype, "any");
                    let vl = or_text_exec(&value, "");
                    proof {
                        reveal_strlit("");
                    }
                    assert(vl@ == or_text(st.2, Seq::empty()));
                    assert(scope_view(s) == match st.3 {
                        Some(x) => x,
                        None => (0int, Seq::<char>::empty()),
                    });
                    let ghost before = entries_view(out@);
                    push_entry(out, s, n, vt, vl);
                    assert(emitted(st) =~= seq![((scope_view(s), n@), (n@, vt@, vl@))]);
                    assert(entries_view(out@) =~= start + run_captures(caps@.take(i + 1)).1);
                },
                None => {
                    assert(entries_view(out@) =~= start + run_captures(caps@.take(i + 1)).1);
                },
            }
            i = i + 1;
        }
        assert(caps@.take(caps@.len() as int) =~= caps@);
        let ghost st = run_captures(caps@).0;
        match fn_sig {
            Some((fname, params)) => {
                let scope_text = match &fn_type {
                    Some(ft) => joined(ft, &fname, &params),
                    None => concat2(&fname, &params),
                };
                let ps = parse_callable_params(params.as_str());
                let ghost mid = entries_view(out@);
                let ghost pv = parameters_view(ps@);
                let ghost f = |p: (Seq<char>, Option<Seq<char>>, Option<Seq<char>>)|
                    (((1int, scope_text@), p.0), (p.0, or_text(p.1, "any"@), or_text(p.2, Seq::empty())));
                let mut j: usize = 0;
                while j < ps.len()
                    invariant
                        j <= ps@.len(),
                        pv == parameters_view(ps@),
                        f == (|p: (Seq<char>, Option<Seq<char>>, Option<Seq<char>>)|
                            (((1int, scope_text@), p.0), (p.0, or_text(p.1, "any"@), or_text(p.2, Seq::empty())))),
                        entries_view(out@) == mid + pv.take(j as int).map_values(f),
                    decreases ps.len() - j,
                {
                    let p = &ps[j];
                    let vt = or_text_exec(&p.datatype, "any");
                    let vl = or_text_exec(&p.initial_value, "");
                    proof {
                        reveal_strlit("");
                    }
                    assert(pv[j as int] == crate::model::parameter_view(ps@[j as int]));
                    assert(f(pv[j as int]) == (((1int, scope_text@), p.name@), (p.name@, vt@, vl@)));
                    let ghost before = entries_view(out@);
                    push_entry(out, Scope::Function(scope_text.clone()), &p.name, vt, vl);
                    assert(pv.take(j + 1) =~= pv.take(j as int).push(pv[j as int]));
                    assert(pv.take(j + 1).map_values(f) =~= pv.take(j as int).map_values(f).push(f(pv[j as int])));
                    assert(entries_view(out@) =~= mid + pv.take(j + 1).map_values(f));
                    j = j + 1;
                }
                assert(pv.take(ps@.len() as int) =~= pv);
                assert(pv.map_values(f) =~= parameter_entries(st));
            },
            None => {
                assert(entries_view(out@) =~= start + match_entries(caps@));
            },
        }
    }

    /// The assignments of every match, in order: after each capture from
    /// the assigned name on, the assignment as read so far; then one per
    /// parameter of the enclosing function.
    pub fn extract(&self, matches: &[Vec<AssignmentCapture>]) -> (r: Vec<(AssignmentKey, Assignment)>)
        ensures
            entries_view(r@) == all_entries(matches@),
    {
        let mut out: Vec<(AssignmentKey, Assignment)> = Vec::new();
        let mut i: usize = 0;
        while i < matches.len()
            invariant
                i <= matches@.len(),
                entries_view(out@) == all_entries(matches@.take(i as int)),
            decreases matches.len() - i,
        {
            assert(matches@.take(i + 1).drop_last() =~= matches@.take(i as int));
            assert(matches@.take(i + 1).last() == matches@[i as int]);
            Self::match_assignments(&matches[i], &mut out);
            i = i + 1;
        }
        assert(matches@.take(matches@.len() as int) =~= matches@);
        out
    }
}

/// The position of the entry keyed `k`, searching from the end.
pub open spec fn key_index(m: Seq<EntryView>, k: KeyView) -> Option<int>
    decreases m.len(),
{
    if m.len() == 0 {
        None
    } else if m.last().0 == k {
        Some(m.len() - 1)
    } else {
        key_index(m.drop_last(), k)
    }
}

/// An existing assignment completed by a later one of the same key: a type
/// `any` and an empty value are taken from the later one.
pub open spec fn merged_entry(existing: EntryView, incoming: EntryView) -> EntryView {
    (
        existing.0,
        (
            existing.1.0,
            if existing.1.1 == "any"@ {
                incoming.1.1
            } else {
                existing.1.1
            },
            if existing.1.2.len() == 0 {
                incoming.1.2
            } else {
                existing.1.2
            },
        ),
    )
}

/// One entry per key, in order of first appearance, each completed by the
/// later ones of its key.
pub open spec fn merge_entries(es: Seq<EntryView>) -> Seq<EntryView>
    decreases es.len(),
{
    if es.len() == 0 {
        Seq::empty()
    } else {
        let m = merge_entries(es.drop_last());
        let e = es.last();
        match key_index(m, e.0) {
            Some(i) => m.update(i, merged_entry(m[i], e)),
            None => m.push(e),
        }
    }
}

pub open spec fn distinct_entry_keys(m: Seq<EntryView>) -> bool {
    forall|a: int, b: int| 0 <= a < b < m.len() ==> #[trigger] m[a].0 != #[trigger] m[b].0
}

proof fn lemma_key_index(m: Seq<EntryView>, k: KeyView)
    ensures
        key_index(m, k) matches Some(i) ==> 0 <= i < m.len() && m[i].0 == k,
        key_index(m, k) is None ==> forall|j: int| 0 <= j < m.len() ==> (#[trigger] m[j]).0 != k,
    decreases m.len(),
{
    if m.len() > 0 && m.last().0 != k {
        lemma_key_index(m.drop_last(), k);
        assert forall|j: int| 0 <= j < m.len() - 1 implies (#[trigger] m[j]).0 == m.drop_last()[j].0 by {}
    }
}

/// Merging leaves one entry per key.
pub proof fn lemma_merge_distinct(es: Seq<EntryView>)
    ensures
        distinct_entry_keys(merge_entries(es)),
    decreases es.len(),
{
    if es.len() > 0 {
        let m = merge_entries(es.drop_last());
        lemma_merge_distinct(es.drop_last());
        lemma_key_index(m, es.last().0);
        let r = merge_entries(es);
        match key_index(m, es.last().0) {
            Some(i) => {
                assert forall|a: int, b: int| 0 <= a < b < r.len() implies #[trigger] r[a].0 != #[trigger] r[b].0 by {
                    assert(r[a].0 == m[a].0 && r[b].0 == m[b].0);
                }
            },
            None => {
                assert forall|a: int, b: int| 0 <= a < b < r.len() implies #[trigger] r[a].0 != #[trigger] r[b].0 by {
                    if b < m.len() {
                        assert(r[a] == m[a] && r[b] == m[b]);
                    } else {
                        assert(r[a] == m[a]);
                    }
                }
            },
        }
    }
}

fn same_key(a: &AssignmentKey, b: &AssignmentKey) -> (r: bool)
    ensures
        r == ((scope_view(a.scope), a.variable_name@) == (scope_view(b.scope), b.variable_name@)),
{
    crate::model::same_scope(&a.scope, &b.scope) && chars_eq(&text_of(&a.variable_name), &text_of(&b.variable_name))
}

fn copy_entry(e: &(AssignmentKey, Assignment)) -> (r: (AssignmentKey, Assignment))
    ensures
        entry_view(r) == entry_view(*e),
{
    (
        AssignmentKey { scope: copy_scope(&e.0.scope), variable_name: e.0.variable_name.clone() },
        Assignment {
            variable_name: e.1.variable_name.clone(),
            variable_type: e.1.variable_type.clone(),
            value: e.1.value.clone(),
        },
    )
}

/// The assignments keyed once each: a later assignment of the same scope
/// and name fills in the type (where it is `any`) and the value (where it
/// is empty) of the first.
pub fn get_assignments_map(raw: &[(AssignmentKey, Assignment)]) -> (r: Vec<(AssignmentKey, Assignment)>)
    ensures
        entries_view(r@) == merge_entries(entries_view(raw@)),
        distinct_entry_keys(entries_view(r@)),
{
    let ghost rv = entries_view(raw@);
    let mut out: Vec<(AssignmentKey, Assignment)> = Vec::new();
    let mut i: usize = 0;
    while i < raw.len()
        invariant
            i <= raw@.len(),
            rv == entries_view(raw@),
            entries_view(out@) == merge_entries(rv.take(i as int)),
        decreases raw.len() - i,
    {
        assert(rv.take(i + 1).drop_last() =~= rv.take(i as int));
        assert(rv.take(i + 1).last() == entry_view(raw@[i as int]));
        let ghost m = entries_view(out@);
        let e = &raw[i];
        let mut k: usize = out.len();
        assert(m.take(k as int) =~= m);
        while k > 0 && !same_key(&out[k - 1].0, &e.0)
            invariant
                k <= out@.len(),
                m == entries_view(out@),
                key_index(m, entry_view(*e).0) == key_index(m.take(k as int), entry_view(*e).0),
            decreases k,
        {
            assert(m.take(k as int).drop_last() =~= m.take(k - 1));
            assert(m.take(k as int).last() == m[k - 1]);
            k = k - 1;
        }
        if k > 0 {
            assert(m.take(k as int).last() == m[k - 1]);
            assert(key_index(m, entry_view(*e).0) == Some(k - 1));
            let cur = copy_entry(&out[k - 1]);
            let vtype = if chars_eq(&text_of(&cur.1.variable_type), &chars_of("any")) {
                e.1.variable_type.clone()
            } else {
                cur.1.variable_type.clone()
            };
            let value = if text_of(&cur.1.value).len() == 0 {
                e.1.value.clone()
            } else {
                cur.1.value.clone()
            };
            let updated = (
                cur.0,
                Assignment { variable_name: cur.1.variable_name, variable_type: vtype, value },
            );
            assert(entry_view(updated) == merged_entry(m[k - 1], entry_view(*e)));
            out.set(k - 1, updated);
            assert(entries_view(out@) =~= m.update(k - 1, merged_entry(m[k - 1], entry_view(*e))));
        } else {
            assert(m.take(0) =~= Seq::<EntryView>::empty());
            out.push(copy_entry(e));
            assert(entries_view(out@) =~= m.push(entry_view(*e)));
        }
        i = i + 1;
    }
    assert(rv.take(raw@.len() as int) =~= rv);
    proof {
        lemma_merge_distinct(rv);
    }
    out
}

/// Some entry is keyed `k`.
pub open spec fn has_key(m: Seq<EntryView>, k: KeyView) -> bool {
    exists|i: int| 0 <= i < m.len() && #[trigger] m[i].0 == k
}

/// Merging keeps exactly the keys of the raw assignments.
pub proof fn lemma_merge_keys(es: Seq<EntryView>)
    ensures
        forall|k: KeyView| #[trigger] has_key(merge_entries(es), k) <==> has_key(es, k),
    decreases es.len(),
{
    if es.len() > 0 {
        let d = es.drop_last();
        let m = merge_entries(d);
        let r = merge_entries(es);
        let e = es.last();
        lemma_merge_keys(d);
        lemma_key_index(m, e.0);
        assert forall|k: KeyView| #[trigger] has_key(r, k) <==> has_key(es, k) by {
            if has_key(r, k) {
                let i = choose|i: int| 0 <= i < r.len() && #[trigger] r[i].0 == k;
                if i < m.len() && m[i].0 == k {
                    assert(has_key(m, k));
                    assert(has_key(d, k));
                    let j = choose|j: int| 0 <= j < d.len() && #[trigger] d[j].0 == k;
                    assert(es[j] == d[j]);
                } else {
                    assert(es[es.len() - 1].0 == k);
                }
            }
            if has_key(es, k) {
                let j = choose|j: int| 0 <= j < es.len() && #[trigger] es[j].0 == k;
                if j < d.len() {
                    assert(d[j] == es[j]);
                    assert(has_key(d, k));
                    assert(has_key(m, k));
                    let i = choose|i: int| 0 <= i < m.len() && #[trigger] m[i].0 == k;
                    assert(r[i].0 == k);
                } else {
                    match key_index(m, e.0) {
                        Some(i) => {
                            assert(r[i].0 == k);
                        },
                        None => {
                            assert(r[m.len() as int].0 == k);
                        },
                    }
                }
            }
        }
    }
}

} // verus!
