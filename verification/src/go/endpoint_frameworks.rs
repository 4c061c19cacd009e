//! Route registrations of Go web frameworks (gorilla/mux, chi and the like,
//! `net/http` serve muxes, `hoisie/web`) recognised on call nodes.
use vstd::prelude::*;

use crate::bindings::Bindings;
use crate::go::shared::{
    infer_http_method_from_name, infer_http_method_from_name_exec, is_http_method_selector, is_http_method_selector_exec,
    parse_http_method_value, parse_http_method_value_exec, split_method_and_path, split_method_and_path_exec,
    web_route_method, web_route_method_exec,
};
use crate::go::syntax::{call_args, call_arguments, child_by_field, child_by_field_name, eval_node, evaluate_expression_node, lemma_first_field_from, selector_name, selector_name_exec, GoNode};
use crate::model::{Assignment, AssignmentKey, HttpMethod, Import};
use crate::text::{
    after_last, before_first_exec, find_exec, normalize_whitespace_exec, one, slice_chars, starts_with_exec, strip_quotes_exec, strip_suffix_exec, trim_end_str_exec, trim_exec, trim_start_str_exec, views, before_first, chars_eq, chars_of, ends_with, find, normalize_whitespace, starts_with, strip_quotes,
    strip_suffix, text_of, trim, trim_end_str, trim_start_str,
};

verus! {

/// The calls that construct a router of a known framework.
pub open spec fn router_constructors() -> Seq<Seq<char>> {
    seq!["chi.NewRouter("@, "gin.Default("@, "gin.New("@, "echo.New("@, "fiber.New("@, "httprouter.New("@]
}

/// The packages of the known router frameworks.
pub open spec fn router_import_prefixes() -> Seq<Seq<char>> {
    seq![
        "github.com/go-chi/chi"@,
        "github.com/gin-gonic/gin"@,
        "github.com/labstack/echo"@,
        "github.com/gofiber/fiber"@,
        "github.com/julienschmidt/httprouter"@,
    ]
}

pub open spec fn starts_with_any(s: Seq<char>, ps: Seq<Seq<char>>) -> bool {
    exists|i: int| 0 <= i < ps.len() && #[trigger] starts_with(s, ps[i])
}

/// The origin's first segment is the alias of an import of one of the
/// packages.
pub open spec fn imported_origin_matches(origin: Seq<char>, imports: Seq<Import>, packages: Seq<Seq<char>>) -> bool {
    let alias = before_first(origin, '.');
    exists|k: int|
        0 <= k < imports.len() && #[trigger] imports[k].module_alias@ == alias && starts_with_any(
            imports[k].orig_module@,
            packages,
        )
}

/// The values assigned to a name, in order.
pub open spec fn values_named(asg: Seq<(AssignmentKey, Assignment)>, name: Seq<char>) -> Seq<Seq<char>>
    decreases asg.len(),
{
    if asg.len() == 0 {
        Seq::empty()
    } else {
        values_named(asg.drop_last(), name) + if asg.last().1.variable_name@ == name {
            seq![asg.last().1.value@]
        } else {
            Seq::empty()
        }
    }
}

/// What the receiver of a selector call was assigned: the one value its
/// assignments agree on, or its own text when it has none; nothing when
/// they disagree.
pub open spec fn receiver_origin(function: GoNode, asg: Seq<(AssignmentKey, Assignment)>) -> Option<Seq<char>> {
    match child_by_field(function, "operand"@) {
        None => None,
        Some(o) => {
            let receiver = trim(function.named@[o].text@);
            let vals = values_named(asg, receiver);
            let first = if vals.len() > 0 {
                vals[0]
            } else {
                receiver
            };
            if exists|i: int| 0 <= i < vals.len() && #[trigger] vals[i] != first {
                None
            } else {
                Some(first)
            }
        },
    }
}

/// The receiver was made by a known router framework.
pub open spec fn is_known_router_receiver(function: GoNode, asg: Seq<(AssignmentKey, Assignment)>, imports: Seq<Import>) -> bool {
    match receiver_origin(function, asg) {
        Some(o) => starts_with_any(o, router_constructors()) || imported_origin_matches(o, imports, router_import_prefixes()),
        None => false,
    }
}

/// The receiver is a `net/http` serve mux.
pub open spec fn is_serve_mux_receiver(function: GoNode, asg: Seq<(AssignmentKey, Assignment)>, imports: Seq<Import>) -> bool {
    match receiver_origin(function, asg) {
        Some(o) => starts_with(o, "http.NewServeMux("@) || o == "http.DefaultServeMux"@ || imported_origin_matches(
            o,
            imports,
            seq!["net/http"@],
        ),
        None => false,
    }
}

/// A path of an HTTP route.
pub open spec fn looks_like_http_path(path: Seq<char>) -> bool {
    starts_with(path, "/"@)
}

/// A route prefix and a path joined by one `/`.
pub open spec fn join_route_prefix(prefix: Seq<char>, path: Seq<char>) -> Seq<char> {
    if prefix.len() == 0 {
        path
    } else if path.len() == 0 {
        prefix
    } else {
        trim_end_str(prefix, "/"@) + "/"@ + trim_start_str(path, "/"@)
    }
}

/// `base.Group("prefix")`: the base and the unquoted prefix.
pub open spec fn parse_group_origin(origin: Seq<char>) -> Option<(Seq<char>, Seq<char>)> {
    match find(origin, ".Group("@) {
        None => None,
        Some(k) => match strip_suffix(origin.skip(k + 7), ")"@) {
            None => None,
            Some(args) => Some((trim(origin.take(k)), strip_quotes(args))),
        },
    }
}

/// The position of the first assignment to a name, from `i` on.
pub open spec fn first_named_index(asg: Seq<(AssignmentKey, Assignment)>, name: Seq<char>, i: int) -> Option<int>
    decreases asg.len() - i,
{
    if i < 0 || i >= asg.len() {
        None
    } else if asg[i].1.variable_name@ == name {
        Some(i)
    } else {
        first_named_index(asg, name, i + 1)
    }
}

pub proof fn lemma_first_named_index(asg: Seq<(AssignmentKey, Assignment)>, name: Seq<char>, i: int)
    requires
        0 <= i,
    ensures
        first_named_index(asg, name, i) matches Some(j) ==> i <= j < asg.len() && asg[j].1.variable_name@ == name,
    decreases asg.len() - i,
{
    if i < asg.len() && asg[i].1.variable_name@ != name {
        lemma_first_named_index(asg, name, i + 1);
    }
}

/// The first value assigned to a name.
pub open spec fn first_value_named(asg: Seq<(AssignmentKey, Assignment)>, name: Seq<char>) -> Option<Seq<char>> {
    match first_named_index(asg, name, 0) {
        Some(j) => Some(asg[j].1.value@),
        None => None,
    }
}

/// How many assignments have a trimmed value not among `seen`.
pub open spec fn count_unseen(asg: Seq<(AssignmentKey, Assignment)>, seen: Seq<Seq<char>>) -> nat
    decreases asg.len(),
{
    if asg.len() == 0 {
        0
    } else {
        count_unseen(asg.drop_last(), seen) + if seen.contains(trim(asg.last().1.value@)) {
            0nat
        } else {
            1nat
        }
    }
}

/// No assigned value, trimmed, is longer than `bound`.
pub open spec fn values_within(asg: Seq<(AssignmentKey, Assignment)>, bound: nat) -> bool {
    forall|j: int| 0 <= j < asg.len() ==> #[trigger] trim(asg[j].1.value@).len() <= bound
}

/// The route prefix a router origin carries: empty for a router a known
/// framework made, the base's prefix joined with the group's for
/// `base.Group("...")` (the base looked up among the assignments), and
/// nothing otherwise or when an origin comes back.  `t` is the trimmed
/// origin, `seen` the origins under way, and `bound` a length no origin
/// exceeds.
pub open spec fn prefix_from(
    t: Seq<char>,
    asg: Seq<(AssignmentKey, Assignment)>,
    imports: Seq<Import>,
    seen: Seq<Seq<char>>,
    bound: nat,
) -> Option<Seq<char>>
    decreases count_unseen(asg, seen.push(t)) * (bound + 1) + t.len(),
    when t.len() <= bound && values_within(asg, bound)
{
    if starts_with_any(t, router_constructors()) || imported_origin_matches(t, imports, router_import_prefixes()) {
        Some(Seq::empty())
    } else {
        match parse_group_origin(t) {
            None => None,
            Some((base, group)) => {
                let next = trim(
                    match first_value_named(asg, base) {
                        Some(v) => v,
                        None => base,
                    },
                );
                let seen2 = seen.push(t);
                if seen2.contains(next) {
                    None
                } else {
                    proof {
                        lemma_prefix_decreases(t, base, next, asg, seen, bound);
                    }
                    match prefix_from(next, asg, imports, seen2, bound) {
                        Some(p) => Some(join_route_prefix(p, group)),
                        None => None,
                    }
                }
            },
        }
    }
}

proof fn lemma_count_unseen_mono(asg: Seq<(AssignmentKey, Assignment)>, seen: Seq<Seq<char>>, more: Seq<Seq<char>>)
    requires
        forall|x: Seq<char>| seen.contains(x) ==> more.contains(x),
    ensures
        count_unseen(asg, more) <= count_unseen(asg, seen),
    decreases asg.len(),
{
    if asg.len() > 0 {
        lemma_count_unseen_mono(asg.drop_last(), seen, more);
    }
}

proof fn lemma_count_unseen_drop(
    asg: Seq<(AssignmentKey, Assignment)>,
    seen: Seq<Seq<char>>,
    more: Seq<Seq<char>>,
    j: int,
)
    requires
        forall|x: Seq<char>| seen.contains(x) ==> more.contains(x),
        0 <= j < asg.len(),
        !seen.contains(trim(asg[j].1.value@)),
        more.contains(trim(asg[j].1.value@)),
    ensures
        count_unseen(asg, more) < count_unseen(asg, seen),
    decreases asg.len(),
{
    if j == asg.len() - 1 {
        lemma_count_unseen_mono(asg.drop_last(), seen, more);
    } else {
        assert(asg.drop_last()[j] == asg[j]);
        lemma_count_unseen_drop(asg.drop_last(), seen, more, j);
    }
}

pub proof fn lemma_prefix_decreases(
    t: Seq<char>,
    base: Seq<char>,
    next: Seq<char>,
    asg: Seq<(AssignmentKey, Assignment)>,
    seen: Seq<Seq<char>>,
    bound: nat,
)
    requires
        t.len() <= bound,
        values_within(asg, bound),
        parse_group_origin(t) matches Some((b, _)) && b == base,
        next == trim(
            match first_value_named(asg, base) {
                Some(v) => v,
                None => base,
            },
        ),
        !seen.push(t).contains(next),
    ensures
        next.len() <= bound,
        count_unseen(asg, seen.push(t).push(next)) * (bound + 1) + next.len() < count_unseen(asg, seen.push(t)) * (
        bound + 1) + t.len(),
{
    reveal_strlit(".Group(");
    let s1 = seen.push(t);
    let s2 = s1.push(next);
    assert forall|x: Seq<char>| s1.contains(x) implies s2.contains(x) by {
        let i = choose|i: int| 0 <= i < s1.len() && s1[i] == x;
        assert(s2[i] == x);
    }
    assert(s2.contains(next)) by {
        assert(s2[s2.len() - 1] == next);
    }
    crate::text::lemma_find(t, ".Group("@);
    let k = find(t, ".Group("@)->0;
    crate::text::lemma_trim_len(t.take(k));
    let c1 = count_unseen(asg, s1);
    let c2 = count_unseen(asg, s2);
    let n1 = t.len();
    let n2 = next.len();
    match first_value_named(asg, base) {
        None => {
            crate::text::lemma_trim_len(base);
            lemma_count_unseen_mono(asg, s1, s2);
            assert(n2 < n1);
            assert(c2 * (bound + 1) + n2 < c1 * (bound + 1) + n1) by (nonlinear_arith)
                requires
                    c2 <= c1,
                    n2 < n1,
            ;
        },
        Some(v) => {
            lemma_first_named_index(asg, base, 0);
            let j = first_named_index(asg, base, 0)->0;
            assert(trim(asg[j].1.value@).len() <= bound);
            lemma_count_unseen_drop(asg, s1, s2, j);
            assert(c2 * (bound + 1) + n2 < c1 * (bound + 1) + n1) by (nonlinear_arith)
                requires
                    c2 + 1 <= c1,
                    n2 <= bound,
                    n1 >= 0,
            ;
        },
    }
}

/// The longest trimmed assigned value.
pub open spec fn max_value_len(asg: Seq<(AssignmentKey, Assignment)>) -> nat
    decreases asg.len(),
{
    if asg.len() == 0 {
        0
    } else {
        let m = max_value_len(asg.drop_last());
        let l = trim(asg.last().1.value@).len();
        if l > m {
            l
        } else {
            m
        }
    }
}

proof fn lemma_max_value_len(asg: Seq<(AssignmentKey, Assignment)>)
    ensures
        values_within(asg, max_value_len(asg)),
    decreases asg.len(),
{
    if asg.len() > 0 {
        lemma_max_value_len(asg.drop_last());
        assert forall|j: int| 0 <= j < asg.len() implies #[trigger] trim(asg[j].1.value@).len() <= max_value_len(asg) by {
            if j < asg.len() - 1 {
                assert(asg.drop_last()[j] == asg[j]);
            }
        }
    }
}

/// A length no origin of a receiver exceeds.
pub open spec fn origin_bound(asg: Seq<(AssignmentKey, Assignment)>, t: Seq<char>) -> nat {
    if t.len() > max_value_len(asg) {
        t.len()
    } else {
        max_value_len(asg)
    }
}

/// The route prefix of a call's receiver.
pub open spec fn router_prefix(function: GoNode, asg: Seq<(AssignmentKey, Assignment)>, imports: Seq<Import>) -> Option<
    Seq<char>,
> {
    match receiver_origin(function, asg) {
        Some(o) => prefix_from(trim(o), asg, imports, Seq::empty(), origin_bound(asg, trim(o))),
        None => None,
    }
}

fn starts_with_any_exec(s: &[char], ps: &Vec<Vec<char>>) -> (r: bool)
    ensures
        r == starts_with_any(s@, views(ps@)),
{
    let mut i: usize = 0;
    while i < ps.len()
        invariant
            i <= ps@.len(),
            forall|k: int| 0 <= k < i ==> !starts_with(s@, #[trigger] views(ps@)[k]),
        decreases ps.len() - i,
    {
        if starts_with_exec(s, &ps[i]) {
            assert(starts_with(s@, views(ps@)[i as int]));
            return true;
        }
        i = i + 1;
    }
    false
}

fn texts(v: &[&str]) -> (r: Vec<Vec<char>>)
    ensures
        views(r@) == v@.map_values(|x: &str| x@),
{
    let mut out: Vec<Vec<char>> = Vec::new();
    let mut i: usize = 0;
    while i < v.len()
        invariant
            i <= v@.len(),
            out@.len() == i,
            views(out@) == v@.take(i as int).map_values(|x: &str| x@),
        decreases v.len() - i,
    {
        let ghost before = out@;
        out.push(chars_of(v[i]));
        assert forall|q: int| 0 <= q < i + 1 implies views(out@)[q] == v@.take(i + 1).map_values(|x: &str| x@)[q] by {
            if q < i {
                assert(out@[q] == before[q]);
                assert(views(before)[q] == v@.take(i as int).map_values(|x: &str| x@)[q]);
            }
        }
        assert(views(out@) =~= v@.take(i + 1).map_values(|x: &str| x@));
        i = i + 1;
    }
    assert(v@.take(v@.len() as int) =~= v@);
    out
}

fn router_constructors_exec() -> (r: Vec<Vec<char>>)
    ensures
        views(r@) == router_constructors(),
{
    let r = texts(&["chi.NewRouter(", "gin.Default(", "gin.New(", "echo.New(", "fiber.New(", "httprouter.New("]);
    assert(views(r@) =~= router_constructors());
    r
}

fn router_import_prefixes_exec() -> (r: Vec<Vec<char>>)
    ensures
        views(r@) == router_import_prefixes(),
{
    let r = texts(
        &[
            "github.com/go-chi/chi",
            "github.com/gin-gonic/gin",
            "github.com/labstack/echo",
            "github.com/gofiber/fiber",
            "github.com/julienschmidt/httprouter",
        ],
    );
    assert(views(r@) =~= router_import_prefixes());
    r
}

fn imported_origin_matches_exec(origin: &[char], imports: &Vec<Import>, packages: &Vec<Vec<char>>) -> (r: bool)
    ensures
        r == imported_origin_matches(origin@, imports@, views(packages@)),
{
    let alias = before_first_exec(origin, '.');
    let mut k: usize = 0;
    while k < imports.len()
        invariant
            k <= imports@.len(),
            alias@ == before_first(origin@, '.'),
            forall|q: int|
                0 <= q < k ==> !(#[trigger] imports@[q].module_alias@ == alias@ && starts_with_any(
                    imports@[q].orig_module@,
                    views(packages@),
                )),
        decreases imports.len() - k,
    {
        let imp = &imports[k];
        if chars_eq(&text_of(&imp.module_alias), &alias) && starts_with_any_exec(&text_of(&imp.orig_module), packages) {
            return true;
        }
        k = k + 1;
    }
    false
}

fn values_named_exec(asg: &Vec<(AssignmentKey, Assignment)>, name: &[char]) -> (r: Vec<Vec<char>>)
    ensures
        views(r@) == values_named(asg@, name@),
{
    let mut out: Vec<Vec<char>> = Vec::new();
    let mut i: usize = 0;
    while i < asg.len()
        invariant
            i <= asg@.len(),
            views(out@) == values_named(asg@.take(i as int), name@),
        decreases asg.len() - i,
    {
        assert(asg@.take(i + 1).drop_last() =~= asg@.take(i as int));
        assert(asg@.take(i + 1).last() == asg@[i as int]);
        let ghost before = views(out@);
        if chars_eq(&text_of(&asg[i].1.variable_name), name) {
            out.push(text_of(&asg[i].1.value));
            assert(views(out@) =~= before + seq![asg@[i as int].1.value@]);
        } else {
            assert(views(out@) =~= before + Seq::<Seq<char>>::empty());
        }
        i = i + 1;
    }
    assert(asg@.take(asg@.len() as int) =~= asg@);
    out
}

fn receiver_origin_exec(function: &GoNode, asg: &Vec<(AssignmentKey, Assignment)>) -> (r: Option<Vec<char>>)
    ensures
        r matches Some(v) ==> receiver_origin(*function, asg@) == Some(v@),
        r is None ==> receiver_origin(*function, asg@) is None,
{
    let o = match child_by_field_name(function, "operand") {
        Some(o) => o,
        None => return None,
    };
    let receiver = trim_exec(&text_of(&function.named[o].text));
    let vals = values_named_exec(asg, &receiver);
    let ghost vv = views(vals@);
    let first = if vals.len() > 0 {
        slice_chars(&vals[0], 0, vals[0].len())
    } else {
        slice_chars(&receiver, 0, receiver.len())
    };
    assert(first@ == (if vv.len() > 0 {
        vv[0]
    } else {
        receiver@
    }));
    let mut i: usize = 0;
    while i < vals.len()
        invariant
            i <= vals@.len(),
            vv == views(vals@),
            vv == values_named(asg@, receiver@),
            child_by_field(*function, "operand"@) == Some(o as int),
            receiver@ == trim(function.named@[o as int].text@),
            first@ == (if vv.len() > 0 {
                vv[0]
            } else {
                receiver@
            }),
            forall|q: int| 0 <= q < i ==> #[trigger] vv[q] == first@,
        decreases vals.len() - i,
    {
        if !chars_eq(&vals[i], &first) {
            assert(vv[i as int] != first@);
            return None;
        }
        i = i + 1;
    }
    Some(first)
}

fn first_value_named_exec(asg: &Vec<(AssignmentKey, Assignment)>, name: &[char]) -> (r: Option<Vec<char>>)
    ensures
        r matches Some(v) ==> first_value_named(asg@, name@) == Some(v@),
        r is None ==> first_value_named(asg@, name@) is None,
{
    let mut i: usize = 0;
    while i < asg.len()
        invariant
            i <= asg@.len(),
            first_named_index(asg@, name@, 0) == first_named_index(asg@, name@, i as int),
        decreases asg.len() - i,
    {
        if chars_eq(&text_of(&asg[i].1.variable_name), name) {
            return Some(text_of(&asg[i].1.value));
        }
        i = i + 1;
    }
    None
}

fn parse_group_origin_exec(origin: &[char]) -> (r: Option<(Vec<char>, Vec<char>)>)
    ensures
        r matches Some(p) ==> parse_group_origin(origin@) == Some((p.0@, p.1@)),
        r is None ==> parse_group_origin(origin@) is None,
{
    let g = chars_of(".Group(");
    proof {
        reveal_strlit(".Group(");
        crate::text::lemma_find(origin@, g@);
    }
    let k = match find_exec(origin, &g) {
        Some(k) => k,
        None => return None,
    };
    let n = origin.len();
    let rest = slice_chars(origin, k + 7, n);
    assert(rest@ =~= origin@.skip(k + 7));
    match strip_suffix_exec(&rest, &chars_of(")")) {
        None => None,
        Some(args) => {
            let base = trim_exec(&slice_chars(origin, 0, k));
            assert(origin@.subrange(0, k as int) =~= origin@.take(k as int));
            Some((base, strip_quotes_exec(&args)))
        },
    }
}

/// Joins a route prefix and a path with one `/` between them.
pub fn join_route_prefix_exec(prefix: &[char], path: &[char]) -> (r: Vec<char>)
    ensures
        r@ == join_route_prefix(prefix@, path@),
{
    if prefix.len() == 0 {
        return slice_chars(path, 0, path.len());
    }
    if path.len() == 0 {
        return slice_chars(prefix, 0, prefix.len());
    }
    let slash = one('/');
    assert(slash@ == "/"@) by {
        reveal_strlit("/");
    }
    let mut r = trim_end_str_exec(prefix, &slash);
    r.push('/');
    crate::text::append_chars(&mut r, &trim_start_str_exec(path, &slash));
    assert(r@ =~= trim_end_str(prefix@, "/"@) + "/"@ + trim_start_str(path@, "/"@)) by {
        reveal_strlit("/");
    }
    r
}

fn prefix_from_exec(
    t: &[char],
    asg: &Vec<(AssignmentKey, Assignment)>,
    imports: &Vec<Import>,
    seen: &mut Vec<Vec<char>>,
    Ghost(bound): Ghost<nat>,
) -> (r: Option<Vec<char>>)
    requires
        t@.len() <= bound,
        values_within(asg@, bound),
    ensures
        views(final(seen)@) == views(old(seen)@),
        r matches Some(p) ==> prefix_from(t@, asg@, imports@, views(old(seen)@), bound) == Some(p@),
        r is None ==> prefix_from(t@, asg@, imports@, views(old(seen)@), bound) is None,
    decreases count_unseen(asg@, views(old(seen)@).push(t@)) * (bound + 1) + t@.len(),
{
    if starts_with_any_exec(t, &router_constructors_exec()) || imported_origin_matches_exec(
        t,
        imports,
        &router_import_prefixes_exec(),
    ) {
        return Some(Vec::new());
    }
    let (base, group) = match parse_group_origin_exec(t) {
        Some(p) => p,
        None => return None,
    };
    let next = trim_exec(
        &match first_value_named_exec(asg, &base) {
            Some(v) => v,
            None => base.clone(),
        },
    );
    let ghost s0 = views(seen@);
    let ghost prev = seen@;
    seen.push(slice_chars(t, 0, t.len()));
    assert(views(seen@) =~= s0.push(t@)) by {
        assert forall|q: int| 0 <= q < seen@.len() implies views(seen@)[q] == s0.push(t@)[q] by {
            if q < prev.len() {
                assert(seen@[q] == prev[q]);
            }
        }
    }
    if crate::go::shared::seen_contains(seen, &next) {
        let _ = seen.pop();
        assert(seen@ =~= prev);
        return None;
    }
    proof {
        lemma_prefix_decreases(t@, base@, next@, asg@, s0, bound);
    }
    let ghost pushed = seen@;
    let inner = prefix_from_exec(&next, asg, imports, seen, Ghost(bound));
    assert(views(seen@) == views(pushed));
    assert(seen@.len() == pushed.len());
    let ghost after = seen@;
    let _ = seen.pop();
    assert(views(seen@) =~= s0) by {
        assert forall|q: int| 0 <= q < seen@.len() implies views(seen@)[q] == s0[q] by {
            assert(seen@[q] == after[q]);
            assert(views(after)[q] == views(pushed)[q]);
            assert(pushed[q] == prev[q]);
        }
    }
    match inner {
        Some(p) => Some(join_route_prefix_exec(&p, &group)),
        None => None,
    }
}

/// The route prefix of a call's receiver.
pub fn router_prefix_exec(function: &GoNode, asg: &Vec<(AssignmentKey, Assignment)>, imports: &Vec<Import>) -> (r:
    Option<Vec<char>>)
    ensures
        r matches Some(p) ==> router_prefix(*function, asg@, imports@) == Some(p@),
        r is None ==> router_prefix(*function, asg@, imports@) is None,
{
    let o = match receiver_origin_exec(function, asg) {
        Some(o) => o,
        None => return None,
    };
    let t = trim_exec(&o);
    let ghost bound = origin_bound(asg@, t@);
    proof {
        lemma_max_value_len(asg@);
        assert forall|j: int| 0 <= j < asg@.len() implies #[trigger] trim(asg@[j].1.value@).len() <= bound by {
            assert(trim(asg@[j].1.value@).len() <= max_value_len(asg@));
        }
    }
    let mut seen: Vec<Vec<char>> = Vec::new();
    assert(views(seen@) =~= Seq::<Seq<char>>::empty());
    prefix_from_exec(&t, asg, imports, &mut seen, Ghost(bound))
}

/// A recognised route: method, path and handler expression.
pub type RouteMatch = (HttpMethod, Seq<char>, Seq<char>);

/// The node in a call's `function` field.
pub open spec fn function_child(n: GoNode) -> Option<GoNode> {
    match child_by_field(n, "function"@) {
        Some(j) => Some(n.named@[j]),
        None => None,
    }
}

/// A handler expression as the route records it.
pub open spec fn handler_text(n: GoNode) -> Seq<char> {
    normalize_whitespace(n.text@)
}

/// gorilla/mux: `r.HandleFunc(path, handler).Methods(method)`.
pub open spec fn gorilla_route(n: GoNode, m: Map<Seq<char>, Seq<char>>) -> Option<RouteMatch> {
    match function_child(n) {
        None => None,
        Some(f) => if selector_name(f) != Some("Methods"@) {
            None
        } else {
            match child_by_field(f, "operand"@) {
                None => None,
                Some(oi) => {
                    let op = f.named@[oi];
                    if op.kind@ != "call_expression"@ {
                        None
                    } else {
                        match child_by_field(op, "function"@) {
                            None => None,
                            Some(ii) => if selector_name(op.named@[ii]) != Some("HandleFunc"@) {
                                None
                            } else {
                                let inner = call_args(op);
                                let margs = call_args(n);
                                if inner.len() < 2 || margs.len() == 0 {
                                    None
                                } else {
                                    match parse_http_method_value(eval_node(margs[0], m)) {
                                        None => None,
                                        Some(meth) => Some((meth, eval_node(inner[0], m), handler_text(inner[1]))),
                                    }
                                }
                            },
                        }
                    }
                },
            }
        },
    }
}

/// A verb method of a chi-style router.
pub open spec fn is_router_verb(sel: Seq<char>) -> bool {
    sel == "Get"@ || sel == "Post"@ || sel == "Put"@ || sel == "Delete"@ || sel == "Patch"@ || sel == "Options"@
        || sel == "Head"@
}

/// `router.Verb(path, handler)` under a route prefix.
pub open spec fn two_arg_route(prefix: Seq<char>, sel: Seq<char>, args: Seq<GoNode>, m: Map<Seq<char>, Seq<char>>) -> Option<
    RouteMatch,
> {
    if args.len() < 2 {
        None
    } else {
        let path = join_route_prefix(prefix, eval_node(args[0], m));
        if !looks_like_http_path(path) {
            None
        } else {
            match parse_http_method_value(sel) {
                None => None,
                Some(meth) => Some((meth, path, handler_text(args[1]))),
            }
        }
    }
}

/// chi, gin, echo, fiber, httprouter: a verb method, or
/// `Method(method, path, handler)`, on a router of a known framework.
pub open spec fn chi_route(
    n: GoNode,
    m: Map<Seq<char>, Seq<char>>,
    asg: Seq<(AssignmentKey, Assignment)>,
    imports: Seq<Import>,
) -> Option<RouteMatch> {
    match function_child(n) {
        None => None,
        Some(f) => match router_prefix(f, asg, imports) {
            None => None,
            Some(prefix) => if prefix.len() == 0 && !is_known_router_receiver(f, asg, imports) {
                None
            } else {
                match selector_name(f) {
                    None => None,
                    Some(sel) => {
                        let args = call_args(n);
                        if is_router_verb(sel) || is_http_method_selector(sel) {
                            two_arg_route(prefix, sel, args, m)
                        } else if sel == "Method"@ || sel == "MethodFunc"@ {
                            if args.len() < 3 {
                                None
                            } else {
                                let path = join_route_prefix(prefix, eval_node(args[1], m));
                                if !looks_like_http_path(path) {
                                    None
                                } else {
                                    match parse_http_method_value(eval_node(args[0], m)) {
                                        None => None,
                                        Some(meth) => Some((meth, path, handler_text(args[2]))),
                                    }
                                }
                            }
                        } else {
                            None
                        }
                    },
                }
            },
        },
    }
}

/// A verb method of a known router — `Get`, `Post`, `Put`, `Delete`,
/// `Patch`, `Options` or `Head` — registers a route from its path and
/// handler arguments, under the router's prefix.
pub proof fn lemma_router_verbs_route(
    n: GoNode,
    m: Map<Seq<char>, Seq<char>>,
    asg: Seq<(AssignmentKey, Assignment)>,
    imports: Seq<Import>,
    prefix: Seq<char>,
    sel: Seq<char>,
)
    requires
        function_child(n) is Some,
        router_prefix(function_child(n)->0, asg, imports) == Some(prefix),
        prefix.len() > 0 || is_known_router_receiver(function_child(n)->0, asg, imports),
        selector_name(function_child(n)->0) == Some(sel),
        sel == "Get"@ || sel == "Post"@ || sel == "Put"@ || sel == "Delete"@ || sel == "Patch"@ || sel == "Options"@
            || sel == "Head"@,
    ensures
        chi_route(n, m, asg, imports) == two_arg_route(prefix, sel, call_args(n), m),
{
}

/// The method a handler's name suggests.
pub open spec fn infer_method_from_handler(handler: Seq<char>) -> HttpMethod {
    infer_http_method_from_name(after_last(handler, '.'))
}

/// `mux.Handle(path, handler)` on a `net/http` serve mux.
pub open spec fn serve_mux_handle_route(
    n: GoNode,
    m: Map<Seq<char>, Seq<char>>,
    asg: Seq<(AssignmentKey, Assignment)>,
    imports: Seq<Import>,
) -> Option<RouteMatch> {
    match function_child(n) {
        None => None,
        Some(f) => if selector_name(f) != Some("Handle"@) || !is_serve_mux_receiver(f, asg, imports) {
            None
        } else {
            let args = call_args(n);
            if args.len() < 2 {
                None
            } else {
                let path = eval_node(args[0], m);
                if !looks_like_http_path(path) {
                    None
                } else {
                    let h = handler_text(args[1]);
                    Some((infer_method_from_handler(h), path, h))
                }
            }
        },
    }
}

/// `mux.HandleFunc("METHOD path", handler)` on a `net/http` serve mux.
pub open spec fn serve_mux_handle_func_route(
    n: GoNode,
    m: Map<Seq<char>, Seq<char>>,
    asg: Seq<(AssignmentKey, Assignment)>,
    imports: Seq<Import>,
) -> Option<RouteMatch> {
    match function_child(n) {
        None => None,
        Some(f) => if selector_name(f) != Some("HandleFunc"@) || !is_serve_mux_receiver(f, asg, imports) {
            None
        } else {
            let args = call_args(n);
            if args.len() < 2 {
                None
            } else {
                match split_method_and_path(eval_node(args[0], m)) {
                    None => None,
                    Some((meth, path)) => Some((meth, path, handler_text(args[1]))),
                }
            }
        },
    }
}

/// A `web.Get`-style call on an import of `hoisie/web`.
pub open spec fn is_web_route_call(f: GoNode, imports: Seq<Import>) -> bool {
    match selector_name(f) {
        None => false,
        Some(sel) => web_route_method(sel) is Some && match child_by_field(f, "operand"@) {
            None => false,
            Some(oi) => exists|k: int|
                0 <= k < imports.len() && #[trigger] imports[k].module_alias@ == trim(f.named@[oi].text@) && starts_with(
                    imports[k].orig_module@,
                    "github.com/hoisie/web"@,
                ),
        },
    }
}

/// `web.Get(path, handler)` and the like.
pub open spec fn web_route(n: GoNode, m: Map<Seq<char>, Seq<char>>, imports: Seq<Import>) -> Option<RouteMatch> {
    match function_child(n) {
        None => None,
        Some(f) => if !is_web_route_call(f, imports) {
            None
        } else {
            match selector_name(f) {
                None => None,
                Some(sel) => match web_route_method(sel) {
                    None => None,
                    Some(meth) => {
                        let args = call_args(n);
                        if args.len() < 2 {
                            None
                        } else {
                            Some((meth, eval_node(args[0], m), handler_text(args[1])))
                        }
                    },
                },
            }
        },
    }
}

/// The route a call registers, by the first framework that recognises it:
/// gorilla/mux, chi-style routers, `Handle`, `HandleFunc`, `hoisie/web`.
pub open spec fn identify_route(
    n: GoNode,
    m: Map<Seq<char>, Seq<char>>,
    asg: Seq<(AssignmentKey, Assignment)>,
    imports: Seq<Import>,
) -> Option<RouteMatch> {
    match gorilla_route(n, m) {
        Some(r) => Some(r),
        None => match chi_route(n, m, asg, imports) {
            Some(r) => Some(r),
            None => match serve_mux_handle_route(n, m, asg, imports) {
                Some(r) => Some(r),
                None => match serve_mux_handle_func_route(n, m, asg, imports) {
                    Some(r) => Some(r),
                    None => web_route(n, m, imports),
                },
            },
        },
    }
}

fn function_child_exec(n: &GoNode) -> (r: Option<&GoNode>)
    ensures
        r matches Some(f) ==> function_child(*n) == Some(*f),
        r is None ==> function_child(*n) is None,
{
    match child_by_field_name(n, "function") {
        Some(j) => Some(&n.named[j]),
        None => None,
    }
}

fn selector_is(f: &GoNode, name: &str) -> (r: bool)
    ensures
        r == (selector_name(*f) == Some(name@)),
{
    match selector_name_exec(f) {
        Some(s) => chars_eq(&s, &chars_of(name)),
        None => false,
    }
}

fn handler_text_exec(n: &GoNode) -> (r: Vec<char>)
    ensures
        r@ == handler_text(*n),
{
    normalize_whitespace_exec(&text_of(&n.text))
}

fn gorilla_route_exec(n: &GoNode, scope: &Bindings) -> (r: Option<(HttpMethod, Vec<char>, Vec<char>)>)
    ensures
        r matches Some(x) ==> gorilla_route(*n, scope@) == Some((x.0, x.1@, x.2@)),
        r is None ==> gorilla_route(*n, scope@) is None,
{
    let f = match function_child_exec(n) {
        Some(f) => f,
        None => return None,
    };
    if !selector_is(f, "Methods") {
        return None;
    }
    let oi = match child_by_field_name(f, "operand") {
        Some(oi) => oi,
        None => return None,
    };
    let op = &f.named[oi];
    if !chars_eq(&text_of(&op.kind), &chars_of("call_expression")) {
        return None;
    }
    let ii = match child_by_field_name(op, "function") {
        Some(ii) => ii,
        None => return None,
    };
    if !selector_is(&op.named[ii], "HandleFunc") {
        return None;
    }
    let inner = call_arguments(op);
    let margs = call_arguments(n);
    if inner.len() < 2 || margs.len() == 0 {
        return None;
    }
    match parse_http_method_value_exec(&evaluate_expression_node(&margs[0], scope)) {
        None => None,
        Some(meth) => Some((meth, evaluate_expression_node(&inner[0], scope), handler_text_exec(&inner[1]))),
    }
}

fn is_known_router_receiver_exec(f: &GoNode, asg: &Vec<(AssignmentKey, Assignment)>, imports: &Vec<Import>) -> (r: bool)
    ensures
        r == is_known_router_receiver(*f, asg@, imports@),
{
    match receiver_origin_exec(f, asg) {
        Some(o) => starts_with_any_exec(&o, &router_constructors_exec()) || imported_origin_matches_exec(
            &o,
            imports,
            &router_import_prefixes_exec(),
        ),
        None => false,
    }
}

fn is_serve_mux_receiver_exec(f: &GoNode, asg: &Vec<(AssignmentKey, Assignment)>, imports: &Vec<Import>) -> (r: bool)
    ensures
        r == is_serve_mux_receiver(*f, asg@, imports@),
{
    match receiver_origin_exec(f, asg) {
        Some(o) => {
            let packages = texts(&["net/http"]);
            assert(views(packages@) =~= seq!["net/http"@]);
            starts_with_exec(&o, &chars_of("http.NewServeMux(")) || chars_eq(&o, &chars_of("http.DefaultServeMux"))
                || imported_origin_matches_exec(&o, imports, &packages)
        },
        None => false,
    }
}

fn is_router_verb_exec(sel: &[char]) -> (r: bool)
    ensures
        r == is_router_verb(sel@),
{
    chars_eq(sel, &chars_of("Get")) || chars_eq(sel, &chars_of("Post")) || chars_eq(sel, &chars_of("Put"))
        || chars_eq(sel, &chars_of("Delete")) || chars_eq(sel, &chars_of("Patch")) || chars_eq(
        sel,
        &chars_of("Options"),
    ) || chars_eq(sel, &chars_of("Head"))
}

fn looks_like_http_path_exec(path: &[char]) -> (r: bool)
    ensures
        r == looks_like_http_path(path@),
{
    starts_with_exec(path, &chars_of("/"))
}

fn two_arg_route_exec(prefix: &[char], sel: &[char], args: &[GoNode], scope: &Bindings) -> (r: Option<
    (HttpMethod, Vec<char>, Vec<char>),
>)
    ensures
        r matches Some(x) ==> two_arg_route(prefix@, sel@, args@, scope@) == Some((x.0, x.1@, x.2@)),
        r is None ==> two_arg_route(prefix@, sel@, args@, scope@) is None,
{
    if args.len() < 2 {
        return None;
    }
    let path = join_route_prefix_exec(prefix, &evaluate_expression_node(&args[0], scope));
    if !looks_like_http_path_exec(&path) {
        return None;
    }
    match parse_http_method_value_exec(sel) {
        None => None,
        Some(meth) => Some((meth, path, handler_text_exec(&args[1]))),
    }
}

fn chi_route_exec(n: &GoNode, scope: &Bindings, asg: &Vec<(AssignmentKey, Assignment)>, imports: &Vec<Import>) -> (r:
    Option<(HttpMethod, Vec<char>, Vec<char>)>)
    ensures
        r matches Some(x) ==> chi_route(*n, scope@, asg@, imports@) == Some((x.0, x.1@, x.2@)),
        r is None ==> chi_route(*n, scope@, asg@, imports@) is None,
{
    let f = match function_child_exec(n) {
        Some(f) => f,
        None => return None,
    };
    let prefix = match router_prefix_exec(f, asg, imports) {
        Some(p) => p,
        None => return None,
    };
    if prefix.len() == 0 && !is_known_router_receiver_exec(f, asg, imports) {
        return None;
    }
    let sel = match selector_name_exec(f) {
        Some(s) => s,
        None => return None,
    };
    let args = call_arguments(n);
    if is_router_verb_exec(&sel) || is_http_method_selector_exec(&sel) {
        two_arg_route_exec(&prefix, &sel, args, scope)
    } else if chars_eq(&sel, &chars_of("Method")) || chars_eq(&sel, &chars_of("MethodFunc")) {
        if args.len() < 3 {
            return None;
        }
        let path = join_route_prefix_exec(&prefix, &evaluate_expression_node(&args[1], scope));
        if !looks_like_http_path_exec(&path) {
            return None;
        }
        match parse_http_method_value_exec(&evaluate_expression_node(&args[0], scope)) {
            None => None,
            Some(meth) => Some((meth, path, handler_text_exec(&args[2]))),
        }
    } else {
        None
    }
}

fn serve_mux_handle_route_exec(
    n: &GoNode,
    scope: &Bindings,
    asg: &Vec<(AssignmentKey, Assignment)>,
    imports: &Vec<Import>,
) -> (r: Option<(HttpMethod, Vec<char>, Vec<char>)>)
    ensures
        r matches Some(x) ==> serve_mux_handle_route(*n, scope@, asg@, imports@) == Some((x.0, x.1@, x.2@)),
        r is None ==> serve_mux_handle_route(*n, scope@, asg@, imports@) is None,
{
    let f = match function_child_exec(n) {
        Some(f) => f,
        None => return None,
    };
    if !selector_is(f, "Handle") || !is_serve_mux_receiver_exec(f, asg, imports) {
        return None;
    }
    let args = call_arguments(n);
    if args.len() < 2 {
        return None;
    }
    let path = evaluate_expression_node(&args[0], scope);
    if !looks_like_http_path_exec(&path) {
        return None;
    }
    let h = handler_text_exec(&args[1]);
    let meth = infer_http_method_from_name_exec(&crate::text::after_last_exec(&h, '.'));
    Some((meth, path, h))
}

fn serve_mux_handle_func_route_exec(
    n: &GoNode,
    scope: &Bindings,
    asg: &Vec<(AssignmentKey, Assignment)>,
    imports: &Vec<Import>,
) -> (r: Option<(HttpMethod, Vec<char>, Vec<char>)>)
    ensures
        r matches Some(x) ==> serve_mux_handle_func_route(*n, scope@, asg@, imports@) == Some((x.0, x.1@, x.2@)),
        r is None ==> serve_mux_handle_func_route(*n, scope@, asg@, imports@) is None,
{
    let f = match function_child_exec(n) {
        Some(f) => f,
        None => return None,
    };
    if !selector_is(f, "HandleFunc") || !is_serve_mux_receiver_exec(f, asg, imports) {
        return None;
    }
    let args = call_arguments(n);
    if args.len() < 2 {
        return None;
    }
    match split_method_and_path_exec(&evaluate_expression_node(&args[0], scope)) {
        None => None,
        Some((meth, path)) => Some((meth, path, handler_text_exec(&args[1]))),
    }
}

fn is_web_route_call_exec(f: &GoNode, imports: &Vec<Import>) -> (r: bool)
    ensures
        r == is_web_route_call(*f, imports@),
{
    let sel = match selector_name_exec(f) {
        Some(s) => s,
        None => return false,
    };
    if web_route_method_exec(&sel).is_none() {
        return false;
    }
    let oi = match child_by_field_name(f, "operand") {
        Some(oi) => oi,
        None => return false,
    };
    let receiver = trim_exec(&text_of(&f.named[oi].text));
    let prefix = chars_of("github.com/hoisie/web");
    let mut k: usize = 0;
    while k < imports.len()
        invariant
            k <= imports@.len(),
            oi < f.named@.len(),
            child_by_field(*f, "operand"@) == Some(oi as int),
            selector_name(*f) == Some(sel@),
            web_route_method(sel@) is Some,
            receiver@ == trim(f.named@[oi as int].text@),
            prefix@ == "github.com/hoisie/web"@,
            forall|q: int|
                0 <= q < k ==> !(#[trigger] imports@[q].module_alias@ == receiver@ && starts_with(
                    imports@[q].orig_module@,
                    "github.com/hoisie/web"@,
                )),
        decreases imports.len() - k,
    {
        if chars_eq(&text_of(&imports[k].module_alias), &receiver) && starts_with_exec(
            &text_of(&imports[k].orig_module),
            &prefix,
        ) {
            return true;
        }
        k = k + 1;
    }
    false
}

fn web_route_exec(n: &GoNode, scope: &Bindings, imports: &Vec<Import>) -> (r: Option<(HttpMethod, Vec<char>, Vec<char>)>)
    ensures
        r matches Some(x) ==> web_route(*n, scope@, imports@) == Some((x.0, x.1@, x.2@)),
        r is None ==> web_route(*n, scope@, imports@) is None,
{
    let f = match function_child_exec(n) {
        Some(f) => f,
        None => return None,
    };
    if !is_web_route_call_exec(f, imports) {
        return None;
    }
    let sel = match selector_name_exec(f) {
        Some(s) => s,
        None => return None,
    };
    match web_route_method_exec(&sel) {
        None => None,
        Some(meth) => {
            let args = call_arguments(n);
            if args.len() < 2 {
                None
            } else {
                Some((meth, evaluate_expression_node(&args[0], scope), handler_text_exec(&args[1])))
            }
        },
    }
}

/// The route a call node registers, by the first framework that
/// recognises it.
pub fn identify_route_exec(
    n: &GoNode,
    scope: &Bindings,
    asg: &Vec<(AssignmentKey, Assignment)>,
    imports: &Vec<Import>,
) -> (r: Option<(HttpMethod, Vec<char>, Vec<char>)>)
    ensures
        r matches Some(x) ==> identify_route(*n, scope@, asg@, imports@) == Some((x.0, x.1@, x.2@)),
        r is None ==> identify_route(*n, scope@, asg@, imports@) is None,
{
    if let Some(r) = gorilla_route_exec(n, scope) {
        return Some(r);
    }
    if let Some(r) = chi_route_exec(n, scope, asg, imports) {
        return Some(r);
    }
    if let Some(r) = serve_mux_handle_route_exec(n, scope, asg, imports) {
        return Some(r);
    }
    if let Some(r) = serve_mux_handle_func_route_exec(n, scope, asg, imports) {
        return Some(r);
    }
    web_route_exec(n, scope, imports)
}

} // verus!
