//! The types of the values passed to and the objects of Java invocations,
//! inferred from the value's text and the assignments of the enclosing
//! function, class and file.
use vstd::prelude::*;

use crate::java::assignments::{entries_view, entry_view, key_index, EntryView};
use crate::java::params::{callable_params, parse_callable_params};
use crate::java::types::{approximate_type_for_value, approximate_type_for_value_exec};
use crate::model::{opt_view, parameters_view, same_scope, scope_view, Argument, Assignment, AssignmentKey, CallStatement, Scope};
use crate::text::{chars_eq, rsplit_once, rsplit_once_exec, string_of, text_of};

verus! {

/// The name, type and value assigned under a key.
pub open spec fn lookup(m: Seq<EntryView>, k: ((int, Seq<char>), Seq<char>)) -> Option<(Seq<char>, Seq<char>, Seq<char>)> {
    match key_index(m, k) {
        Some(i) => Some(m[i].1),
        None => None,
    }
}

/// The scope of the enclosing function (the file's when there is none).
pub open spec fn function_scope(f: Option<Seq<char>>) -> (int, Seq<char>) {
    match f {
        Some(n) => (1, n),
        None => (0, Seq::empty()),
    }
}

/// The scope of the enclosing class (the file's when there is none).
pub open spec fn class_scope(c: Option<Seq<char>>) -> (int, Seq<char>) {
    match c {
        Some(n) => (2, n),
        None => (0, Seq::empty()),
    }
}

fn function_scope_exec(f: &Option<String>) -> (r: Scope)
    ensures
        scope_view(r) == function_scope(opt_view(*f)),
{
    match f {
        Some(n) => Scope::Function(n.clone()),
        None => Scope::Global,
    }
}

fn class_scope_exec(c: &Option<String>) -> (r: Scope)
    ensures
        scope_view(r) == class_scope(opt_view(*c)),
{
    match c {
        Some(n) => Scope::Class(n.clone()),
        None => Scope::Global,
    }
}

/// Following a value through the assignments of a scope, at most `fuel`
/// steps: the first type found, `Some(None)` where the chain ends without
/// one, and `None` where the steps run out.
pub open spec fn resolve_chain(m: Seq<EntryView>, sv: (int, Seq<char>), current: Seq<char>, fuel: nat) -> Option<Option<Seq<char>>>
    decreases fuel,
{
    if fuel == 0 {
        None
    } else {
        match lookup(m, (sv, current)) {
            None => Some(None),
            Some((_, ty, val)) => if ty.len() > 0 {
                Some(Some(ty))
            } else {
                resolve_chain(m, sv, val, (fuel - 1) as nat)
            },
        }
    }
}

/// A chain through the assignments of a scope ends: it visits each key at
/// most once (a chain that comes back to a key never ends).
pub open spec fn resolves(m: Seq<EntryView>, sv: (int, Seq<char>), v: Seq<char>) -> bool {
    resolve_chain(m, sv, v, (m.len() + 1) as nat) is Some
}

/// The type a chain of assignments of a scope gives a value.
pub open spec fn resolved_type(m: Seq<EntryView>, sv: (int, Seq<char>), v: Seq<char>) -> Option<Seq<char>> {
    resolve_chain(m, sv, v, (m.len() + 1) as nat)->0
}

fn lookup_exec<'a>(map: &'a Vec<(AssignmentKey, Assignment)>, scope: &Scope, name: &[char]) -> (r: Option<&'a Assignment>)
    ensures
        r matches Some(a) ==> lookup(entries_view(map@), (scope_view(*scope), name@)) == Some(
            (a.variable_name@, a.variable_type@, a.value@),
        ),
        r is None ==> lookup(entries_view(map@), (scope_view(*scope), name@)) is None,
{
    let ghost ev = entries_view(map@);
    let mut i: usize = map.len();
    assert(ev.take(i as int) =~= ev);
    while i > 0
        invariant
            i <= map@.len(),
            ev == entries_view(map@),
            key_index(ev, (scope_view(*scope), name@)) == key_index(ev.take(i as int), (scope_view(*scope), name@)),
        decreases i,
    {
        assert(ev.take(i as int).drop_last() =~= ev.take(i - 1));
        assert(ev.take(i as int).last() == entry_view(map@[i - 1]));
        if same_scope(&map[i - 1].0.scope, scope) && chars_eq(&text_of(&map[i - 1].0.variable_name), name) {
            return Some(&map[i - 1].1);
        }
        i = i - 1;
    }
    assert(ev.take(0) =~= Seq::<EntryView>::empty());
    None
}

/// Follows a value through the assignments of a scope to the first type
/// assigned on the way.
pub fn resolve_type(start_value: &str, scope: &Scope, map: &Vec<(AssignmentKey, Assignment)>) -> (r: Option<String>)
    requires
        resolves(entries_view(map@), scope_view(*scope), start_value@),
    ensures
        opt_view(r) == resolved_type(entries_view(map@), scope_view(*scope), start_value@),
{
    let ghost m = entries_view(map@);
    let ghost sv = scope_view(*scope);
    let mut current = text_of(&string_of(&crate::text::chars_of(start_value)));
    let mut fuel: usize = map.len();
    loop
        invariant
            m == entries_view(map@),
            sv == scope_view(*scope),
            fuel <= map@.len(),
            resolve_chain(m, sv, current@, (fuel + 1) as nat) is Some,
            resolve_chain(m, sv, current@, (fuel + 1) as nat) == resolve_chain(m, sv, start_value@, (m.len() + 1) as nat),
        decreases fuel,
    {
        let ghost prev = current@;
        match lookup_exec(map, scope, &current) {
            None => return None,
            Some(a) => {
                if text_of(&a.variable_type).len() > 0 {
                    return Some(a.variable_type.clone());
                }
                current = text_of(&a.value);
            },
        }
        assert(resolve_chain(m, sv, prev, (fuel + 1) as nat) == resolve_chain(m, sv, current@, fuel as nat));
        if fuel == 0 {
            return None;
        }
        fuel = fuel - 1;
    }
}

/// The type an argument is given: the one its text suggests, else the first
/// type found through the assignments of the enclosing function, of the
/// enclosing class, then of the file.  `None` where a chain that is
/// followed never ends.
pub open spec fn argument_type(
    m: Seq<EntryView>,
    value: Seq<char>,
    f: Option<Seq<char>>,
    c: Option<Seq<char>>,
    parses_as_float: bool,
) -> Option<Option<Seq<char>>> {
    match approximate_type_for_value(value, parses_as_float) {
        Some(t) => Some(Some(t)),
        None => if !resolves(m, function_scope(f), value) {
            None
        } else if resolved_type(m, function_scope(f), value) is Some {
            Some(resolved_type(m, function_scope(f), value))
        } else if !resolves(m, class_scope(c), value) {
            None
        } else if resolved_type(m, class_scope(c), value) is Some {
            Some(resolved_type(m, class_scope(c), value))
        } else if !resolves(m, (0, Seq::empty()), value) {
            None
        } else {
            Some(resolved_type(m, (0, Seq::empty()), value))
        },
    }
}

/// Gives an argument the type inferred for it, where one is found; whether
/// its text parses as a floating-point number is told by the caller.
pub fn infer_argument_type(
    arg: &mut Argument,
    enclosing_function_name: &Option<String>,
    enclosing_class_name: &Option<String>,
    map: &Vec<(AssignmentKey, Assignment)>,
    parses_as_float: bool,
)
    requires
        argument_type(
            entries_view(map@),
            old(arg).value@,
            opt_view(*enclosing_function_name),
            opt_view(*enclosing_class_name),
            parses_as_float,
        ) is Some,
    ensures
        final(arg).value@ == old(arg).value@,
        final(arg).assigned_variable@ == old(arg).assigned_variable@,
        opt_view(final(arg).datatype) == match argument_type(
            entries_view(map@),
            old(arg).value@,
            opt_view(*enclosing_function_name),
            opt_view(*enclosing_class_name),
            parses_as_float,
        )->0 {
            Some(t) => Some(t),
            None => opt_view(old(arg).datatype),
        },
{
    if let Some(t) = approximate_type_for_value_exec(arg.value.as_str(), parses_as_float) {
        arg.datatype = Some(t);
        return;
    }
    let fs = function_scope_exec(enclosing_function_name);
    if let Some(t) = resolve_type(arg.value.as_str(), &fs, map) {
        arg.datatype = Some(t);
        return;
    }
    let cs = class_scope_exec(enclosing_class_name);
    if let Some(t) = resolve_type(arg.value.as_str(), &cs, map) {
        arg.datatype = Some(t);
        return;
    }
    if let Some(t) = resolve_type(arg.value.as_str(), &Scope::Global, map) {
        arg.datatype = Some(t);
    }
}

/// The type of the object an invocation is made on: the type assigned to
/// its name in the enclosing function, else in the enclosing class; else
/// the type of the enclosing function's parameter whose name the function
/// scope's assignment holds.
pub open spec fn invoked_type(m: Seq<EntryView>, obj: Seq<char>, f: Option<Seq<char>>, c: Option<Seq<char>>) -> Option<Seq<char>> {
    let fa = lookup(m, (function_scope(f), obj));
    let ca = lookup(m, (class_scope(c), obj));
    if fa matches Some((_, ty, _)) && ty.len() > 0 {
        Some((fa->0).1)
    } else if ca matches Some((_, ty, _)) && ty.len() > 0 {
        Some((ca->0).1)
    } else {
        match (f, fa) {
            (Some(func), Some((_, _, val))) => param_type(callable_params(func), val, 0),
            _ => None,
        }
    }
}

/// The type of the object a call is made on comes from its assignment: the
/// enclosing function's assignment of the name when it declares a type,
/// else the enclosing class's when that declares one.
pub proof fn lemma_invoked_type_scopes(m: Seq<EntryView>, obj: Seq<char>, f: Option<Seq<char>>, c: Option<Seq<char>>)
    ensures
        ({
            let fa = lookup(m, (function_scope(f), obj));
            fa is Some && (fa->0).1.len() > 0 ==> invoked_type(m, obj, f, c) == Some((fa->0).1)
        }),
        ({
            let fa = lookup(m, (function_scope(f), obj));
            let ca = lookup(m, (class_scope(c), obj));
            (fa is None || (fa->0).1.len() == 0) && ca is Some && (ca->0).1.len() > 0 ==> invoked_type(m, obj, f, c)
                == Some((ca->0).1)
        }),
{
}

/// The type of the first parameter named `name` from `i` on.
pub open spec fn param_type(ps: Seq<(Seq<char>, Option<Seq<char>>, Option<Seq<char>>)>, name: Seq<char>, i: int) -> Option<Seq<char>>
    decreases ps.len() - i,
{
    if i < 0 || i >= ps.len() {
        None
    } else if ps[i].0 == name {
        ps[i].1
    } else {
        param_type(ps, name, i + 1)
    }
}

/// Finds the type of the object a function is invoked on.
#[verifier::loop_isolation(false)]
pub fn find_invoked_type(
    invoked_object: &str,
    enclosing_function_name: &Option<String>,
    enclosing_class_name: &Option<String>,
    map: &Vec<(AssignmentKey, Assignment)>,
) -> (r: Option<String>)
    ensures
        opt_view(r) == invoked_type(
            entries_view(map@),
            invoked_object@,
            opt_view(*enclosing_function_name),
            opt_view(*enclosing_class_name),
        ),
{
    let obj = crate::text::chars_of(invoked_object);
    let fs = function_scope_exec(enclosing_function_name);
    let cs = class_scope_exec(enclosing_class_name);
    let fa = lookup_exec(map, &fs, &obj);
    let ca = lookup_exec(map, &cs, &obj);
    if let Some(a) = fa {
        if text_of(&a.variable_type).len() > 0 {
            return Some(a.variable_type.clone());
        }
    }
    if let Some(a) = ca {
        if text_of(&a.variable_type).len() > 0 {
            return Some(a.variable_type.clone());
        }
    }
    match (enclosing_function_name, fa) {
        (Some(func), Some(a)) => {
            let ps = parse_callable_params(func.as_str());
            let ghost pv = parameters_view(ps@);
            let mut i: usize = 0;
            while i < ps.len()
                invariant
                    i <= ps@.len(),
                    pv == parameters_view(ps@),
                    param_type(pv, a.value@, 0) == param_type(pv, a.value@, i as int),
                decreases ps.len() - i,
            {
                assert(pv[i as int] == crate::model::parameter_view(ps@[i as int]));
                if chars_eq(&text_of(&ps[i].name), &text_of(&a.value)) {
                    return crate::model::copy_opt(&ps[i].datatype);
                }
                i = i + 1;
            }
            None
        },
        _ => None,
    }
}

/// The object a call's function name invokes its method on: the text before
/// its last `.`.
pub open spec fn invoked_object(function_name: Seq<char>) -> Option<Seq<char>> {
    match rsplit_once(function_name, '.') {
        Some((obj, _)) => Some(obj),
        None => None,
    }
}

pub fn extract_invoked_object(function_name: &str) -> (r: Option<String>)
    ensures
        opt_view(r) == invoked_object(function_name@),
{
    match rsplit_once_exec(&crate::text::chars_of(function_name), '.') {
        Some((obj, _)) => Some(string_of(&obj)),
        None => None,
    }
}

/// Every argument of the call has a type that can be inferred (every chain
/// of assignments followed for it ends).
pub open spec fn call_inferable(m: Seq<EntryView>, call: CallStatement, floats: Seq<bool>) -> bool {
    floats.len() == call.arguments@.len() && forall|j: int|
        0 <= j < call.arguments@.len() ==> #[trigger] argument_type(
            m,
            call.arguments@[j].value@,
            opt_view(call.enclosing_function_name),
            opt_view(call.enclosing_class_name),
            floats[j],
        ) is Some
}

/// `r` is `call` with the type of the object its method is invoked on and
/// the types of its arguments inferred.
pub open spec fn call_evaluated(m: Seq<EntryView>, call: CallStatement, floats: Seq<bool>, r: CallStatement) -> bool {
    let f = opt_view(call.enclosing_function_name);
    let c = opt_view(call.enclosing_class_name);
    &&& r == (CallStatement { invoked_on: r.invoked_on, arguments: r.arguments, ..call })
    &&& opt_view(r.invoked_on) == match invoked_object(call.function_name@) {
        Some(obj) => invoked_type(m, obj, f, c),
        None => opt_view(call.invoked_on),
    }
    &&& r.arguments@.len() == call.arguments@.len()
    &&& forall|j: int|
        0 <= j < call.arguments@.len() ==> {
            &&& (#[trigger] r.arguments@[j]).value@ == call.arguments@[j].value@
            &&& r.arguments@[j].assigned_variable@ == call.arguments@[j].assigned_variable@
            &&& opt_view(r.arguments@[j].datatype) == match argument_type(m, call.arguments@[j].value@, f, c, floats[j])->0 {
                Some(t) => Some(t),
                None => opt_view(call.arguments@[j].datatype),
            }
        }
}

fn evaluate_call(call: CallStatement, map: &Vec<(AssignmentKey, Assignment)>, floats: &Vec<bool>) -> (r: CallStatement)
    requires
        call_inferable(entries_view(map@), call, floats@),
    ensures
        call_evaluated(entries_view(map@), call, floats@, r),
{
    let ghost orig = call;
    let mut call = call;
    match extract_invoked_object(call.function_name.as_str()) {
        Some(obj) => {
            call.invoked_on = find_invoked_type(obj.as_str(), &call.enclosing_function_name, &call.enclosing_class_name, map);
        },
        None => {},
    }
    let mut args: Vec<Argument> = Vec::new();
    std::mem::swap(&mut args, &mut call.arguments);
    let ghost a0 = args@;
    let mut done: Vec<Argument> = Vec::new();
    let n = args.len();
    let mut j: usize = 0;
    while j < n
        invariant
            j <= n,
            n == a0.len(),
            args@ == a0.skip(j as int),
            a0 == orig.arguments@,
            call.enclosing_function_name == orig.enclosing_function_name,
            call.enclosing_class_name == orig.enclosing_class_name,
            call_inferable(entries_view(map@), orig, floats@),
            done@.len() == j,
            forall|q: int|
                0 <= q < j ==> {
                    &&& (#[trigger] done@[q]).value@ == a0[q].value@
                    &&& done@[q].assigned_variable@ == a0[q].assigned_variable@
                    &&& opt_view(done@[q].datatype) == match argument_type(
                        entries_view(map@),
                        a0[q].value@,
                        opt_view(orig.enclosing_function_name),
                        opt_view(orig.enclosing_class_name),
                        floats@[q],
                    )->0 {
                        Some(t) => Some(t),
                        None => opt_view(a0[q].datatype),
                    }
                },
        decreases n - j,
    {
        let mut a = args.remove(0);
        assert(a == a0[j as int]);
        assert(a0.skip(j as int).remove(0) =~= a0.skip(j + 1));
        infer_argument_type(&mut a, &call.enclosing_function_name, &call.enclosing_class_name, map, floats[j]);
        done.push(a);
        j = j + 1;
    }
    call.arguments = done;
    call
}

/// Infers, for each call, the type of the object its method is invoked on
/// and the types of its arguments; whether each argument's text parses as a
/// floating-point number is told by the caller, call by call.
pub fn evaluate_invocations(
    calls: &mut Vec<CallStatement>,
    map: &Vec<(AssignmentKey, Assignment)>,
    floats: &Vec<Vec<bool>>,
)
    requires
        floats@.len() == old(calls)@.len(),
        forall|i: int| 0 <= i < old(calls)@.len() ==> call_inferable(entries_view(map@), #[trigger] old(calls)@[i], floats@[i]@),
    ensures
        final(calls)@.len() == old(calls)@.len(),
        forall|i: int|
            0 <= i < old(calls)@.len() ==> call_evaluated(entries_view(map@), old(calls)@[i], floats@[i]@, #[trigger] final(calls)@[i]),
{
    let ghost orig = calls@;
    let mut pending: Vec<CallStatement> = Vec::new();
    std::mem::swap(&mut pending, calls);
    let n = pending.len();
    let mut done: Vec<CallStatement> = Vec::new();
    let mut i: usize = 0;
    while i < n
        invariant
            i <= n,
            n == orig.len(),
            floats@.len() == n,
            pending@ == orig.skip(i as int),
            forall|k: int| 0 <= k < n ==> call_inferable(entries_view(map@), #[trigger] orig[k], floats@[k]@),
            done@.len() == i,
            forall|k: int| 0 <= k < i ==> call_evaluated(entries_view(map@), orig[k], floats@[k]@, #[trigger] done@[k]),
        decreases n - i,
    {
        let c = pending.remove(0);
        assert(c == orig[i as int]);
        assert(orig.skip(i as int).remove(0) =~= orig.skip(i + 1));
        let e = evaluate_call(c, map, &floats[i]);
        done.push(e);
        i = i + 1;
    }
    *calls = done;
}

/// Whether a chain through the assignments of a scope ends.
pub fn resolves_exec(start_value: &str, scope: &Scope, map: &Vec<(AssignmentKey, Assignment)>) -> (r: bool)
    ensures
        r == resolves(entries_view(map@), scope_view(*scope), start_value@),
{
    let ghost m = entries_view(map@);
    let ghost sv = scope_view(*scope);
    let mut current = crate::text::chars_of(start_value);
    let mut fuel: usize = map.len();
    loop
        invariant
            m == entries_view(map@),
            sv == scope_view(*scope),
            fuel <= map@.len(),
            resolve_chain(m, sv, current@, (fuel + 1) as nat) == resolve_chain(m, sv, start_value@, (m.len() + 1) as nat),
        decreases fuel,
    {
        let ghost prev = current@;
        match lookup_exec(map, scope, &current) {
            None => return true,
            Some(a) => {
                if text_of(&a.variable_type).len() > 0 {
                    return true;
                }
                current = text_of(&a.value);
            },
        }
        assert(resolve_chain(m, sv, prev, (fuel + 1) as nat) == resolve_chain(m, sv, current@, fuel as nat));
        if fuel == 0 {
            return false;
        }
        fuel = fuel - 1;
    }
}

/// Whether the types of every argument of every call can be inferred.
pub fn calls_inferable(calls: &Vec<CallStatement>, map: &Vec<(AssignmentKey, Assignment)>, floats: &Vec<Vec<bool>>) -> (r: bool)
    ensures
        r == (floats@.len() == calls@.len() && forall|i: int|
            0 <= i < calls@.len() ==> call_inferable(entries_view(map@), #[trigger] calls@[i], floats@[i]@)),
{
    if floats.len() != calls.len() {
        return false;
    }
    let mut i: usize = 0;
    while i < calls.len()
        invariant
            i <= calls@.len(),
            floats@.len() == calls@.len(),
            forall|k: int| 0 <= k < i ==> call_inferable(entries_view(map@), #[trigger] calls@[k], floats@[k]@),
        decreases calls.len() - i,
    {
        let call = &calls[i];
        let fl = &floats[i];
        if fl.len() != call.arguments.len() {
            assert(!call_inferable(entries_view(map@), calls@[i as int], floats@[i as int]@));
            return false;
        }
        let fs = function_scope_exec(&call.enclosing_function_name);
        let cs = class_scope_exec(&call.enclosing_class_name);
        let mut j: usize = 0;
        while j < call.arguments.len()
            invariant
                j <= call.arguments@.len(),
                i < calls@.len(),
                floats@.len() == calls@.len(),
                *call == calls@[i as int],
                *fl == floats@[i as int],
                fl@.len() == call.arguments@.len(),
                scope_view(fs) == function_scope(opt_view(call.enclosing_function_name)),
                scope_view(cs) == class_scope(opt_view(call.enclosing_class_name)),
                forall|q: int| 0 <= q < j ==> #[trigger] argument_type(
                    entries_view(map@),
                    call.arguments@[q].value@,
                    opt_view(call.enclosing_function_name),
                    opt_view(call.enclosing_class_name),
                    fl@[q],
                ) is Some,
            decreases call.arguments.len() - j,
        {
            let v = call.arguments[j].value.as_str();
            let ok = if approximate_type_for_value_exec(v, fl[j]).is_some() {
                true
            } else if !resolves_exec(v, &fs, map) {
                false
            } else if resolve_type(v, &fs, map).is_some() {
                true
            } else if !resolves_exec(v, &cs, map) {
                false
            } else if resolve_type(v, &cs, map).is_some() {
                true
            } else {
                resolves_exec(v, &Scope::Global, map)
            };
            assert(ok == argument_type(
                entries_view(map@),
                call.arguments@[j as int].value@,
                opt_view(call.enclosing_function_name),
                opt_view(call.enclosing_class_name),
                fl@[j as int],
            ) is Some);
            if !ok {
                assert(!call_inferable(entries_view(map@), calls@[i as int], floats@[i as int]@));
                return false;
            }
            j = j + 1;
        }
        i = i + 1;
    }
    true
}

} // verus!
