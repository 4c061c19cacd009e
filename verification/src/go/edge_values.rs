//! The concrete values a message edge's transport fields take: literals,
//! constants known across a service, parameter bindings followed through
//! aliases and composite literals.
use vstd::prelude::*;

use crate::bindings::Bindings;
use crate::go::kafka::{string_literals, string_literals_exec};
use crate::go::values::{
    composite_items, composite_items_exec, composite_ok, composite_selector_values, selector_ok,
    selector_suffixes, selector_suffixes_exec, selector_value,
};
use crate::model::{Expr, Language, Namespace, ParsedCallable, Stmt, TypedFileRecord};
use crate::sorting::texts;
use crate::text::{
    chars_eq, chars_of, ends_with, ends_with_exec, first_word, first_word_exec, split_once, split_once_exec,
    starts_with, starts_with_exec, string_of, strip_prefix, strip_prefix_exec, strip_suffix, strip_suffix_exec,
    text_of, trim_start_str, trim_start_str_exec,
};

verus! {

/// How many times a name is followed through bindings and aliases.
pub const RESOLUTION_DEPTH: usize = 4;

/// `acc` with the texts of `lits` it lacks appended, in order.
pub open spec fn add_missing(acc: Seq<Seq<char>>, lits: Seq<Seq<char>>) -> Seq<Seq<char>>
    decreases lits.len(),
{
    if lits.len() == 0 {
        acc
    } else {
        let a = add_missing(acc, lits.drop_last());
        if a.contains(lits.last()) {
            a
        } else {
            a.push(lits.last())
        }
    }
}

/// The literals that the first `k` assignments `(name, value)` give the
/// selector suffix `s`: those of each assignment whose name ends in the
/// whole segments `s` and whose value holds a literal, each kept once.
pub open spec fn known_upto(a: Seq<(Seq<char>, Seq<char>)>, s: Seq<char>, k: int) -> Seq<Seq<char>>
    decreases k,
{
    if k <= 0 || k > a.len() {
        Seq::empty()
    } else {
        let prev = known_upto(a, s, k - 1);
        let lits = string_literals(a[k - 1].1, true);
        if lits.len() > 0 && selector_suffixes(a[k - 1].0).contains(s) {
            add_missing(prev, lits)
        } else {
            prev
        }
    }
}

/// The statically known values of the selector suffix `s`.
pub open spec fn known_values(a: Seq<(Seq<char>, Seq<char>)>, s: Seq<char>) -> Seq<Seq<char>> {
    known_upto(a, s, a.len() as int)
}

/// The values of the first suffix in `sufs` from `i` on that is known to
/// have exactly one value.
pub open spec fn first_unique(sufs: Seq<Seq<char>>, a: Seq<(Seq<char>, Seq<char>)>, i: int) -> Seq<Seq<char>>
    decreases sufs.len() - i,
{
    if i < 0 || i >= sufs.len() {
        Seq::empty()
    } else if known_values(a, sufs[i]).len() == 1 {
        known_values(a, sufs[i])
    } else {
        first_unique(sufs, a, i + 1)
    }
}

/// The concrete values of a field: its string literals, or else the one
/// value known for its most specific unambiguous selector suffix.
pub open spec fn concrete_values(value: Seq<char>, a: Seq<(Seq<char>, Seq<char>)>) -> Seq<Seq<char>> {
    let lits = string_literals(value, true);
    if lits.len() > 0 {
        lits
    } else {
        first_unique(selector_suffixes(value), a, 0)
    }
}

pub open spec fn pairs_view(a: Seq<(String, String)>) -> Seq<(Seq<char>, Seq<char>)> {
    a.map_values(|p: (String, String)| (p.0@, p.1@))
}

fn texts_contain(v: &Vec<String>, t: &[char]) -> (r: bool)
    ensures
        r == texts(v@).contains(t@),
{
    let mut i: usize = 0;
    while i < v.len()
        invariant
            i <= v@.len(),
            forall|j: int| 0 <= j < i ==> v@[j]@ != t@,
        decreases v.len() - i,
    {
        if chars_eq(&text_of(&v[i]), t) {
            assert(texts(v@)[i as int] == t@);
            return true;
        }
        i = i + 1;
    }
    assert(!texts(v@).contains(t@)) by {
        if texts(v@).contains(t@) {
            let j = choose|j: int| 0 <= j < texts(v@).len() && texts(v@)[j] == t@;
            assert(v@[j]@ == t@);
        }
    }
    false
}

/// Appends the literals that `acc` lacks.
fn add_missing_exec(acc: &mut Vec<String>, lits: &Vec<String>)
    ensures
        texts(final(acc)@) == add_missing(texts(old(acc)@), texts(lits@)),
{
    let ghost start = texts(acc@);
    let mut i: usize = 0;
    while i < lits.len()
        invariant
            i <= lits@.len(),
            texts(acc@) == add_missing(start, texts(lits@).take(i as int)),
        decreases lits.len() - i,
    {
        let l = text_of(&lits[i]);
        assert(texts(lits@).take(i + 1).drop_last() =~= texts(lits@).take(i as int));
        assert(texts(lits@).take(i + 1).last() == l@);
        if !texts_contain(acc, &l) {
            let ghost before = texts(acc@);
            acc.push(lits[i].clone());
            assert(texts(acc@) =~= before.push(l@));
        }
        i = i + 1;
    }
    assert(texts(lits@).take(lits@.len() as int) =~= texts(lits@));
}

/// The statically known values of the selector suffix `s` among the
/// assignments `a`.
pub fn known_values_exec(a: &Vec<(String, String)>, s: &[char]) -> (r: Vec<String>)
    ensures
        texts(r@) == known_values(pairs_view(a@), s@),
{
    let ghost pv = pairs_view(a@);
    let mut acc: Vec<String> = Vec::new();
    let mut k: usize = 0;
    while k < a.len()
        invariant
            k <= a@.len(),
            pv == pairs_view(a@),
            texts(acc@) == known_upto(pv, s@, k as int),
        decreases a.len() - k,
    {
        let lits = string_literals_exec(&text_of(&a[k].1), true);
        let sufs = selector_suffixes_exec(&text_of(&a[k].0));
        if lits.len() > 0 && texts_contain(&sufs, s) {
            add_missing_exec(&mut acc, &lits);
        }
        k = k + 1;
    }
    acc
}

/// The concrete values of a field: its literals, or the one value known for
/// its most specific unambiguous selector suffix.
pub fn concrete_values_exec(value: &[char], a: &Vec<(String, String)>) -> (r: Vec<String>)
    ensures
        texts(r@) == concrete_values(value@, pairs_view(a@)),
{
    let lits = string_literals_exec(value, true);
    if lits.len() > 0 {
        return lits;
    }
    let sufs = selector_suffixes_exec(value);
    let ghost sv = texts(sufs@);
    let mut i: usize = 0;
    while i < sufs.len()
        invariant
            i <= sufs@.len(),
            sv == texts(sufs@),
            sv == selector_suffixes(value@),
            string_literals(value@, true).len() == 0,
            first_unique(sv, pairs_view(a@), 0) == first_unique(sv, pairs_view(a@), i as int),
        decreases sufs.len() - i,
    {
        let known = known_values_exec(a, &text_of(&sufs[i]));
        assert(sv[i as int] == sufs@[i as int]@);
        if known.len() == 1 {
            return known;
        }
        i = i + 1;
    }
    Vec::new()
}

/// `head.tail`.
pub open spec fn dotted(head: Seq<char>, tail: Seq<char>) -> Seq<char> {
    head + seq!['.'] + tail
}

fn dotted_exec(head: &[char], tail: &[char]) -> (r: Vec<char>)
    ensures
        r@ == dotted(head@, tail@),
{
    let mut r = copy_chars(head);
    r.push('.');
    crate::text::append_chars(&mut r, tail);
    assert(r@ =~= dotted(head@, tail@));
    r
}

/// The values a field's text takes through the parameter bindings `b` and
/// the aliases `a`, in at most `RESOLUTION_DEPTH - depth` steps: a bound
/// name gives its argument; an alias is followed; for `root.sel`, the value
/// bound to `root` (through one alias) is read as a composite literal, the
/// selected field when `sel` names one, else each item of a list with
/// `.sel` appended, else the bound value with `.sel` appended is followed.
/// `None` where a composite literal on the way cannot be read (its last `}`
/// stands before its first `{`).
pub open spec fn binding_values(
    value: Seq<char>,
    b: Map<Seq<char>, Seq<char>>,
    a: Map<Seq<char>, Seq<char>>,
    depth: nat,
) -> Option<Seq<Seq<char>>>
    decreases RESOLUTION_DEPTH - depth,
{
    if depth >= RESOLUTION_DEPTH {
        Some(seq![value])
    } else if b.contains_key(value) {
        Some(seq![b[value]])
    } else {
        match split_once(value, '.') {
            None => if a.contains_key(value) {
                binding_values(a[value], b, a, depth + 1)
            } else {
                Some(seq![value])
            },
            Some((root, suffix)) => {
                let bound = if b.contains_key(root) {
                    Some(b[root])
                } else if a.contains_key(root) {
                    Some(a[root])
                } else {
                    None
                };
                match bound {
                    None => Some(seq![value]),
                    Some(x) => {
                        let y = if a.contains_key(x) {
                            a[x]
                        } else {
                            x
                        };
                        if !selector_ok(y, suffix) {
                            None
                        } else {
                            match selector_value(y, suffix) {
                                Some(v) => Some(seq![v]),
                                None => {
                                    let items = composite_items(y);
                                    if items.len() == 0 {
                                        binding_values(dotted(y, suffix), b, a, depth + 1)
                                    } else {
                                        Some(items.map_values(|i: Seq<char>| dotted(i, suffix)))
                                    }
                                },
                            }
                        }
                    },
                }
            },
        }
    }
}

fn copy_chars(v: &[char]) -> (r: Vec<char>)
    ensures
        r@ == v@,
{
    let r = crate::text::slice_chars(v, 0, v.len());
    assert(r@ =~= v@);
    r
}

fn single(v: Vec<char>) -> (r: Vec<String>)
    ensures
        texts(r@) == seq![v@],
{
    let mut r: Vec<String> = Vec::new();
    r.push(string_of(&v));
    assert(texts(r@) =~= seq![v@]);
    r
}

/// Applies parameter bindings and aliases to a field's text, keeping a
/// selector suffix such as `.Name`; `None` where a composite literal on the
/// way cannot be read.
pub fn binding_values_exec(value: &[char], b: &Bindings, a: &Bindings, depth: usize) -> (r: Option<Vec<String>>)
    ensures
        r matches Some(vs) ==> binding_values(value@, b@, a@, depth as nat) == Some(texts(vs@)),
        r is None ==> binding_values(value@, b@, a@, depth as nat) is None,
    decreases RESOLUTION_DEPTH - depth,
{
    if depth >= RESOLUTION_DEPTH {
        return Some(single(copy_chars(value)));
    }
    if let Some(v) = b.get(value) {
        return Some(single(text_of(&v)));
    }
    match split_once_exec(value, '.') {
        None => match a.get(value) {
            Some(alias) => binding_values_exec(&text_of(&alias), b, a, depth + 1),
            None => Some(single(copy_chars(value))),
        },
        Some((root, suffix)) => {
            let bound = match b.get(&root) {
                Some(x) => Some(x),
                None => a.get(&root),
            };
            match bound {
                None => Some(single(copy_chars(value))),
                Some(x) => {
                    let y = match a.get(&text_of(&x)) {
                        Some(z) => text_of(&z),
                        None => text_of(&x),
                    };
                    if !crate::go::values::selector_ok_exec(&y, &suffix) {
                        return None;
                    }
                    match composite_selector_values(string_of(&y).as_str(), string_of(&suffix).as_str()) {
                        Some(vs) => {
                            assert(texts(vs@) =~= seq![vs@[0]@]);
                            Some(vs)
                        },
                        None => {
                            let items = composite_items_exec(&y);
                            if items.len() == 0 {
                                binding_values_exec(&dotted_exec(&y, &suffix), b, a, depth + 1)
                            } else {
                                let ghost iv = texts(items@);
                                let mut out: Vec<String> = Vec::new();
                                let mut i: usize = 0;
                                while i < items.len()
                                    invariant
                                        i <= items@.len(),
                                        iv == texts(items@),
                                        texts(out@) == iv.take(i as int).map_values(|t: Seq<char>| dotted(t, suffix@)),
                                    decreases items.len() - i,
                                {
                                    let d = dotted_exec(&text_of(&items[i]), &suffix);
                                    let ghost before = texts(out@);
                                    out.push(string_of(&d));
                                    assert(iv[i as int] == items@[i as int]@);
                                    assert(texts(out@) =~= before.push(dotted(iv[i as int], suffix@)));
                                    assert(iv.take(i + 1) =~= iv.take(i as int).push(iv[i as int]));
                                    assert(texts(out@) =~= iv.take(i + 1).map_values(|t: Seq<char>| dotted(t, suffix@)));
                                    i = i + 1;
                                }
                                assert(iv.take(iv.len() as int) =~= iv);
                                Some(out)
                            }
                        },
                    }
                },
            }
        },
    }
}

/// The name a Go method signature `func (r *T) ...` gives its receiver.
pub open spec fn method_receiver_name(signature: Seq<char>) -> Option<Seq<char>> {
    match strip_prefix(signature, "func ("@) {
        None => None,
        Some(rest) => match split_once(rest, ')') {
            None => None,
            Some((receiver, _)) => first_word(receiver),
        },
    }
}

pub fn method_receiver_name_exec(signature: &[char]) -> (r: Option<Vec<char>>)
    ensures
        r matches Some(v) ==> method_receiver_name(signature@) == Some(v@),
        r is None ==> method_receiver_name(signature@) is None,
{
    match strip_prefix_exec(signature, &chars_of("func (")) {
        None => None,
        Some(rest) => match split_once_exec(&rest, ')') {
            None => None,
            Some((receiver, _)) => first_word_exec(&receiver),
        },
    }
}

/// The text of the subset of constructor expressions that transport fields
/// are made of: a literal or a name (through the constructor's locals `l`),
/// or a selector; anything else is empty.
pub open spec fn expression_text(e: Expr, l: Map<Seq<char>, Seq<char>>) -> Seq<char>
    decreases e,
{
    match e {
        Expr::Literal(v) => if l.contains_key(v@) {
            l[v@]
        } else {
            v@
        },
        Expr::Var(v) => if l.contains_key(v@) {
            l[v@]
        } else {
            v@
        },
        Expr::Attr { object, field } => dotted(expression_text(*object, l), field@),
        _ => Seq::empty(),
    }
}

pub fn expression_text_exec(e: &Expr, l: &Bindings) -> (r: Vec<char>)
    ensures
        r@ == expression_text(*e, l@),
    decreases e,
{
    match e {
        Expr::Literal(v) => match l.get(&text_of(v)) {
            Some(x) => text_of(&x),
            None => text_of(v),
        },
        Expr::Var(v) => match l.get(&text_of(v)) {
            Some(x) => text_of(&x),
            None => text_of(v),
        },
        Expr::Attr { object, field } => dotted_exec(&expression_text_exec(object, l), &text_of(field)),
        _ => Vec::new(),
    }
}

/// The position of the first field named `f`, from `i` on.
pub open spec fn field_position(fields: Seq<(String, Expr)>, f: Seq<char>, i: int) -> Option<int>
    decreases fields.len() - i,
{
    if i < 0 || i >= fields.len() {
        None
    } else if fields[i].0@ == f {
        Some(i)
    } else {
        field_position(fields, f, i + 1)
    }
}

proof fn lemma_field_position(fields: Seq<(String, Expr)>, f: Seq<char>, i: int)
    requires
        0 <= i,
    ensures
        field_position(fields, f, i) matches Some(j) ==> i <= j < fields.len(),
    decreases fields.len() - i,
{
    if i < fields.len() && fields[i].0@ != f {
        lemma_field_position(fields, f, i + 1);
    }
}

/// One field of a struct literal of the receiver's type.
pub open spec fn struct_field_value(e: Expr, receiver_type: Seq<char>, field: Seq<char>, l: Map<Seq<char>, Seq<char>>) -> Option<Seq<char>> {
    match e {
        Expr::StructLiteral { literal_type: Some(t), fields } => if ends_with(trim_start_str(t@, seq!['&']), receiver_type) {
            match field_position(fields@, field, 0) {
                Some(j) => Some(expression_text(fields@[j].1, l)),
                None => None,
            }
        } else {
            None
        },
        _ => None,
    }
}

#[verifier::loop_isolation(false)]
fn struct_field_value_exec(e: &Expr, receiver_type: &[char], field: &[char], l: &Bindings) -> (r: Option<Vec<char>>)
    ensures
        r matches Some(v) ==> struct_field_value(*e, receiver_type@, field@, l@) == Some(v@),
        r is None ==> struct_field_value(*e, receiver_type@, field@, l@) is None,
{
    match e {
        Expr::StructLiteral { literal_type: Some(t), fields } => {
            if !ends_with_exec(&trim_start_str_exec(&text_of(t), &crate::text::one('&')), receiver_type) {
                return None;
            }
            let mut i: usize = 0;
            while i < fields.len()
                invariant
                    i <= fields@.len(),
                    field_position(fields@, field@, 0) == field_position(fields@, field@, i as int),
                    ends_with(trim_start_str(t@, seq!['&']), receiver_type@),
                decreases fields.len() - i,
            {
                if chars_eq(&text_of(&fields[i].0), field) {
                    assert(fields@[i as int].0@ == field@);
                    return Some(expression_text_exec(&fields[i].1, l));
                }
                i = i + 1;
            }
            None
        },
        _ => None,
    }
}

/// The value a constructor's statements, from `i` on, give `field` of a
/// struct literal of the receiver's type, with the locals `l` bound so far.
pub open spec fn constructor_field_value(
    stmts: Seq<Stmt>,
    receiver_type: Seq<char>,
    field: Seq<char>,
    l: Map<Seq<char>, Seq<char>>,
    i: int,
) -> Option<Seq<char>>
    decreases stmts.len() - i,
{
    if i < 0 || i >= stmts.len() {
        None
    } else {
        match stmts[i] {
            Stmt::Declaration { name, value, .. } => match struct_field_value(value, receiver_type, field, l) {
                Some(v) => Some(v),
                None => constructor_field_value(
                    stmts,
                    receiver_type,
                    field,
                    l.insert(name@, expression_text(value, l)),
                    i + 1,
                ),
            },
            Stmt::Assignment { name, value } => match struct_field_value(value, receiver_type, field, l) {
                Some(v) => Some(v),
                None => constructor_field_value(
                    stmts,
                    receiver_type,
                    field,
                    l.insert(name@, expression_text(value, l)),
                    i + 1,
                ),
            },
            Stmt::Return(value) => match struct_field_value(value, receiver_type, field, l) {
                Some(v) => Some(v),
                None => constructor_field_value(stmts, receiver_type, field, l, i + 1),
            },
            _ => constructor_field_value(stmts, receiver_type, field, l, i + 1),
        }
    }
}

/// The value a constructor gives `field` of the receiver's struct literal,
/// after resolving its local variables.
pub fn constructor_field_value_exec(stmts: &Vec<Stmt>, receiver_type: &[char], field: &[char]) -> (r: Option<Vec<char>>)
    ensures
        r matches Some(v) ==> constructor_field_value(stmts@, receiver_type@, field@, Map::empty(), 0) == Some(v@),
        r is None ==> constructor_field_value(stmts@, receiver_type@, field@, Map::empty(), 0) is None,
{
    let mut locals = Bindings::new();
    let mut i: usize = 0;
    while i < stmts.len()
        invariant
            i <= stmts@.len(),
            constructor_field_value(stmts@, receiver_type@, field@, Map::empty(), 0)
                == constructor_field_value(stmts@, receiver_type@, field@, locals@, i as int),
        decreases stmts.len() - i,
    {
        match &stmts[i] {
            Stmt::Declaration { name, value, .. } => {
                if let Some(v) = struct_field_value_exec(value, receiver_type, field, &locals) {
                    return Some(v);
                }
                let t = expression_text_exec(value, &locals);
                locals.insert(name.clone(), string_of(&t));
            },
            Stmt::Assignment { name, value } => {
                if let Some(v) = struct_field_value_exec(value, receiver_type, field, &locals) {
                    return Some(v);
                }
                let t = expression_text_exec(value, &locals);
                locals.insert(name.clone(), string_of(&t));
            },
            Stmt::Return(value) => {
                if let Some(v) = struct_field_value_exec(value, receiver_type, field, &locals) {
                    return Some(v);
                }
            },
            _ => {},
        }
        i = i + 1;
    }
    None
}

/// The type a method's namespace names, for a method of a type.
pub open spec fn class_of(c: ParsedCallable) -> Option<Seq<char>> {
    match c.metadata.namespace {
        Namespace::Class(t) => Some(t@),
        Namespace::Module(_) => None,
    }
}

fn class_of_exec(c: &ParsedCallable) -> (r: Option<Vec<char>>)
    ensures
        r matches Some(v) ==> class_of(*c) == Some(v@),
        r is None ==> class_of(*c) is None,
{
    match &c.metadata.namespace {
        Namespace::Class(t) => Some(text_of(t)),
        Namespace::Module(_) => None,
    }
}

/// The value the first constructor (a callable named `New...`) from `i` on
/// gives `field` of the receiver type's struct literal.
pub open spec fn first_constructor_value(cs: Seq<ParsedCallable>, receiver_type: Seq<char>, field: Seq<char>, i: int) -> Option<Seq<char>>
    decreases cs.len() - i,
{
    if i < 0 || i >= cs.len() {
        None
    } else if starts_with(cs[i].metadata.name@, "New"@) && constructor_field_value(
        cs[i].statements@,
        receiver_type,
        field,
        Map::empty(),
        0,
    ) is Some {
        constructor_field_value(cs[i].statements@, receiver_type, field, Map::empty(), 0)
    } else {
        first_constructor_value(cs, receiver_type, field, i + 1)
    }
}


pub open spec fn is_go(f: TypedFileRecord) -> bool {
    f.language == Language::Go
}

/// The value the first constructor of the Go files from `fi` on gives
/// `field` of the receiver type's struct literal.
pub open spec fn files_constructor_value(files: Seq<TypedFileRecord>, receiver_type: Seq<char>, field: Seq<char>, fi: int) -> Option<Seq<char>>
    decreases files.len() - fi,
{
    if fi < 0 || fi >= files.len() {
        None
    } else if is_go(files[fi]) && first_constructor_value(files[fi].callables@, receiver_type, field, 0) is Some {
        first_constructor_value(files[fi].callables@, receiver_type, field, 0)
    } else {
        files_constructor_value(files, receiver_type, field, fi + 1)
    }
}

/// The first method named `method` of the type `t` in the Go files from
/// `fi` on: its file and its position there.
pub open spec fn files_accessor(files: Seq<TypedFileRecord>, method: Seq<char>, t: Seq<char>, fi: int) -> Option<(int, int)>
    decreases files.len() - fi,
{
    if fi < 0 || fi >= files.len() {
        None
    } else if is_go(files[fi]) && accessor_position(files[fi].callables@, method, t, 0) is Some {
        Some((fi, accessor_position(files[fi].callables@, method, t, 0)->0))
    } else {
        files_accessor(files, method, t, fi + 1)
    }
}

pub proof fn lemma_files_accessor(files: Seq<TypedFileRecord>, method: Seq<char>, t: Seq<char>, fi: int)
    requires
        0 <= fi,
    ensures
        files_accessor(files, method, t, fi) matches Some((a, j)) ==> fi <= a < files.len() && 0 <= j
            < files[a].callables@.len(),
    decreases files.len() - fi,
{
    if fi < files.len() {
        if is_go(files[fi]) && accessor_position(files[fi].callables@, method, t, 0) is Some {
            lemma_accessor_position(files[fi].callables@, method, t, 0);
        } else {
            lemma_files_accessor(files, method, t, fi + 1);
        }
    }
}

/// The values of `receiver.field[.suffix]` where `receiver` is the method's
/// receiver and a constructor of its type initializes `field`.
pub open spec fn receiver_field_values(value: Seq<char>, c: ParsedCallable, files: Seq<TypedFileRecord>) -> Option<Seq<Seq<char>>> {
    match split_once(value, '.') {
        None => None,
        Some((receiver, selector)) => {
            let (field, suffix) = match split_once(selector, '.') {
                Some((f, rest)) => (f, Some(rest)),
                None => (selector, None),
            };
            match class_of(c) {
                None => None,
                Some(t) => if method_receiver_name(c.metadata.signature@) != Some(receiver) {
                    None
                } else {
                    match files_constructor_value(files, t, field, 0) {
                        None => None,
                        Some(v) => Some(
                            match suffix {
                                Some(rest) => seq![dotted(v, rest)],
                                None => seq![v],
                            },
                        ),
                    }
                },
            }
        },
    }
}

fn same_receiver(c: &ParsedCallable, receiver: &[char]) -> (r: bool)
    ensures
        r == (method_receiver_name(c.metadata.signature@) == Some(receiver@)),
{
    match method_receiver_name_exec(&text_of(&c.metadata.signature)) {
        Some(n) => chars_eq(&n, receiver),
        None => false,
    }
}

/// Resolves `receiver.field` values initialized in constructors for the
/// receiver's type.
#[verifier::loop_isolation(false)]
pub fn receiver_field_values_exec(value: &[char], c: &ParsedCallable, files: &Vec<TypedFileRecord>) -> (r: Option<Vec<String>>)
    ensures
        r matches Some(vs) ==> receiver_field_values(value@, *c, files@) == Some(texts(vs@)),
        r is None ==> receiver_field_values(value@, *c, files@) is None,
{
    let (receiver, selector) = match split_once_exec(value, '.') {
        Some(p) => p,
        None => return None,
    };
    let (field, suffix) = match split_once_exec(&selector, '.') {
        Some((f, rest)) => (f, Some(rest)),
        None => (selector, None),
    };
    let t = match class_of_exec(c) {
        Some(t) => t,
        None => return None,
    };
    if !same_receiver(c, &receiver) {
        return None;
    }
    let mut fi: usize = 0;
    while fi < files.len()
        invariant
            fi <= files@.len(),
            files_constructor_value(files@, t@, field@, 0) == files_constructor_value(files@, t@, field@, fi as int),
        decreases files.len() - fi,
    {
        if files[fi].language == Language::Go {
            let cs = &files[fi].callables;
            let mut i: usize = 0;
            while i < cs.len()
                invariant
                    i <= cs@.len(),
                    first_constructor_value(cs@, t@, field@, 0) == first_constructor_value(cs@, t@, field@, i as int),
                decreases cs.len() - i,
            {
                if starts_with_exec(&text_of(&cs[i].metadata.name), &chars_of("New")) {
                    if let Some(v) = constructor_field_value_exec(&cs[i].statements, &t, &field) {
                        let w = match &suffix {
                            Some(rest) => dotted_exec(&v, rest),
                            None => v,
                        };
                        return Some(single(w));
                    }
                }
                i = i + 1;
            }
        }
        fi = fi + 1;
    }
    None
}

/// The position of the first method named `method` of the type `t`, from `i`
/// on.
pub open spec fn accessor_position(cs: Seq<ParsedCallable>, method: Seq<char>, t: Seq<char>, i: int) -> Option<int>
    decreases cs.len() - i,
{
    if i < 0 || i >= cs.len() {
        None
    } else if cs[i].metadata.name@ == method && class_of(cs[i]) == Some(t) {
        Some(i)
    } else {
        accessor_position(cs, method, t, i + 1)
    }
}

proof fn lemma_accessor_position(cs: Seq<ParsedCallable>, method: Seq<char>, t: Seq<char>, i: int)
    requires
        0 <= i,
    ensures
        accessor_position(cs, method, t, i) matches Some(j) ==> i <= j < cs.len(),
    decreases cs.len() - i,
{
    if i < cs.len() && !(cs[i].metadata.name@ == method && class_of(cs[i]) == Some(t)) {
        lemma_accessor_position(cs, method, t, i + 1);
    }
}

/// The field `receiver.field` that a statement returns, when it returns one.
pub open spec fn returned_field(s: Stmt, receiver: Seq<char>) -> Option<Seq<char>> {
    match s {
        Stmt::Return(Expr::Attr { object, field }) => match *object {
            Expr::Var(n) => if n@ == receiver {
                Some(field@)
            } else {
                None
            },
            _ => None,
        },
        _ => None,
    }
}

/// The constructor-backed values of the first field that an accessor's
/// statements, from `i` on, return and that resolves.
pub open spec fn accessor_values(
    stmts: Seq<Stmt>,
    receiver: Seq<char>,
    c: ParsedCallable,
    files: Seq<TypedFileRecord>,
    i: int,
) -> Option<Seq<Seq<char>>>
    decreases stmts.len() - i,
{
    if i < 0 || i >= stmts.len() {
        None
    } else {
        match returned_field(stmts[i], receiver) {
            Some(f) => match receiver_field_values(dotted(receiver, f), c, files) {
                Some(v) => Some(v),
                None => accessor_values(stmts, receiver, c, files, i + 1),
            },
            None => accessor_values(stmts, receiver, c, files, i + 1),
        }
    }
}

/// The values of `receiver.Method()` where `Method` is an accessor of the
/// receiver's type returning a constructor-backed field.
pub open spec fn receiver_accessor_values(value: Seq<char>, c: ParsedCallable, files: Seq<TypedFileRecord>) -> Option<Seq<Seq<char>>> {
    match strip_suffix(value, "()"@) {
        None => None,
        Some(v) => match split_once(v, '.') {
            None => None,
            Some((receiver, method)) => match class_of(c) {
                None => None,
                Some(t) => if method_receiver_name(c.metadata.signature@) != Some(receiver) {
                    None
                } else {
                    match files_accessor(files, method, t, 0) {
                        None => None,
                        Some((fi, j)) => accessor_values(files[fi].callables@[j].statements@, receiver, c, files, 0),
                    }
                },
            },
        },
    }
}

fn returned_field_exec(s: &Stmt, receiver: &[char]) -> (r: Option<Vec<char>>)
    ensures
        r matches Some(f) ==> returned_field(*s, receiver@) == Some(f@),
        r is None ==> returned_field(*s, receiver@) is None,
{
    match s {
        Stmt::Return(Expr::Attr { object, field }) => match &**object {
            Expr::Var(n) => if chars_eq(&text_of(n), receiver) {
                Some(text_of(field))
            } else {
                None
            },
            _ => None,
        },
        _ => None,
    }
}

/// Resolves receiver accessor methods that return a constructor-backed
/// field.
#[verifier::loop_isolation(false)]
pub fn receiver_accessor_values_exec(value: &[char], c: &ParsedCallable, files: &Vec<TypedFileRecord>) -> (r: Option<Vec<String>>)
    ensures
        r matches Some(vs) ==> receiver_accessor_values(value@, *c, files@) == Some(texts(vs@)),
        r is None ==> receiver_accessor_values(value@, *c, files@) is None,
{
    let v = match strip_suffix_exec(value, &chars_of("()")) {
        Some(v) => v,
        None => return None,
    };
    let (receiver, method) = match split_once_exec(&v, '.') {
        Some(p) => p,
        None => return None,
    };
    let t = match class_of_exec(c) {
        Some(t) => t,
        None => return None,
    };
    if !same_receiver(c, &receiver) {
        return None;
    }
    let mut fi: usize = 0;
    while fi < files.len()
        invariant
            fi <= files@.len(),
            files_accessor(files@, method@, t@, 0) == files_accessor(files@, method@, t@, fi as int),
        decreases files.len() - fi,
    {
        if files[fi].language == Language::Go {
            let cs = &files[fi].callables;
            let mut j: usize = 0;
            while j < cs.len()
                invariant
                    j <= cs@.len(),
                    accessor_position(cs@, method@, t@, 0) == accessor_position(cs@, method@, t@, j as int),
                decreases cs.len() - j,
            {
                let hit = chars_eq(&text_of(&cs[j].metadata.name), &method) && match class_of_exec(&cs[j]) {
                    Some(u) => chars_eq(&u, &t),
                    None => false,
                };
                if hit {
                    let stmts = &cs[j].statements;
                    let mut i: usize = 0;
                    while i < stmts.len()
                        invariant
                            i <= stmts@.len(),
                            accessor_values(stmts@, receiver@, *c, files@, 0) == accessor_values(stmts@, receiver@, *c, files@, i as int),
                        decreases stmts.len() - i,
                    {
                        if let Some(f) = returned_field_exec(&stmts[i], &receiver) {
                            if let Some(vs) = receiver_field_values_exec(&dotted_exec(&receiver, &f), c, files) {
                                return Some(vs);
                            }
                        }
                        i = i + 1;
                    }
                    return None;
                }
                j = j + 1;
            }
        }
        fi = fi + 1;
    }
    None
}

/// The routing-key constant of a typed AMQP producer: `x.Key()` in a method
/// of `OrderProducer` stands for `constant.OrderKey`.
pub open spec fn producer_event_key(value: Seq<char>, c: ParsedCallable) -> Option<Seq<Seq<char>>> {
    if !ends_with(value, ".Key()"@) {
        None
    } else {
        match class_of(c) {
            None => None,
            Some(t) => match strip_suffix(t, "Producer"@) {
                None => None,
                Some(p) => Some(seq!["constant."@ + p + "Key"@]),
            },
        }
    }
}

pub fn producer_event_key_exec(value: &[char], c: &ParsedCallable) -> (r: Option<Vec<String>>)
    ensures
        r matches Some(vs) ==> producer_event_key(value@, *c) == Some(texts(vs@)),
        r is None ==> producer_event_key(value@, *c) is None,
{
    if !ends_with_exec(value, &chars_of(".Key()")) {
        return None;
    }
    let t = match class_of_exec(c) {
        Some(t) => t,
        None => return None,
    };
    match strip_suffix_exec(&t, &chars_of("Producer")) {
        None => None,
        Some(p) => {
            let mut k = chars_of("constant.");
            crate::text::append_chars(&mut k, &p);
            crate::text::append_chars(&mut k, &chars_of("Key"));
            assert(k@ =~= "constant."@ + p@ + "Key"@);
            Some(single(k))
        },
    }
}

/// The concrete values of each of `r[..k]`, in order.
pub open spec fn all_concrete(r: Seq<Seq<char>>, known: Seq<(Seq<char>, Seq<char>)>, k: int) -> Seq<Seq<char>>
    decreases k,
{
    if k <= 0 || k > r.len() {
        Seq::empty()
    } else {
        all_concrete(r, known, k - 1) + concrete_values(r[k - 1], known)
    }
}

/// The texts a field's text resolves to before constants are applied:
/// through a receiver accessor, a receiver field, a producer's key constant,
/// or else the parameter bindings and aliases.
pub open spec fn resolved_texts(
    v: Seq<char>,
    b: Map<Seq<char>, Seq<char>>,
    a: Map<Seq<char>, Seq<char>>,
    c: ParsedCallable,
    files: Seq<TypedFileRecord>,
) -> Option<Seq<Seq<char>>> {
    match receiver_accessor_values(v, c, files) {
        Some(x) => Some(x),
        None => match receiver_field_values(v, c, files) {
            Some(x) => Some(x),
            None => match producer_event_key(v, c) {
                Some(x) => Some(x),
                None => binding_values(v, b, a, 0),
            },
        },
    }
}

pub open spec fn somes(v: Seq<Seq<char>>) -> Seq<Option<Seq<char>>> {
    v.map_values(|x: Seq<char>| Some(x))
}

/// The values a message edge's field takes: an absent field stays absent;
/// a present one gives the concrete values of its resolved texts, or the
/// resolved texts themselves when none is concrete.  `None` where a
/// composite literal on the way cannot be read.
pub open spec fn values_for(
    value: Option<Seq<char>>,
    b: Map<Seq<char>, Seq<char>>,
    a: Map<Seq<char>, Seq<char>>,
    known: Seq<(Seq<char>, Seq<char>)>,
    c: ParsedCallable,
    files: Seq<TypedFileRecord>,
) -> Option<Seq<Option<Seq<char>>>> {
    match value {
        None => Some(seq![None]),
        Some(v) => match resolved_texts(v, b, a, c, files) {
            None => None,
            Some(r) => {
                let vals = all_concrete(r, known, r.len() as int);
                Some(
                    if vals.len() == 0 {
                        somes(r)
                    } else {
                        somes(vals)
                    },
                )
            },
        },
    }
}

pub open spec fn opts_view(v: Seq<Option<String>>) -> Seq<Option<Seq<char>>> {
    v.map_values(|o: Option<String>| crate::model::opt_view(o))
}

fn somes_exec(v: Vec<String>) -> (r: Vec<Option<String>>)
    ensures
        opts_view(r@) == somes(texts(v@)),
{
    let mut r: Vec<Option<String>> = Vec::new();
    let mut i: usize = 0;
    while i < v.len()
        invariant
            i <= v@.len(),
            opts_view(r@) == somes(texts(v@)).take(i as int),
        decreases v.len() - i,
    {
        let x = v[i].clone();
        let ghost before = opts_view(r@);
        r.push(Some(x));
        assert(opts_view(r@) =~= before.push(Some(v@[i as int]@)));
        assert(somes(texts(v@)).take(i + 1) =~= somes(texts(v@)).take(i as int).push(Some(v@[i as int]@)));
        i = i + 1;
    }
    assert(somes(texts(v@)).take(v@.len() as int) =~= somes(texts(v@)));
    r
}

/// Resolves a field through parameter bindings, list literals, receiver
/// constructors and known configuration selectors.
pub fn values_for_exec(
    value: &Option<String>,
    b: &Bindings,
    a: &Bindings,
    known: &Vec<(String, String)>,
    c: &ParsedCallable,
    files: &Vec<TypedFileRecord>,
) -> (r: Option<Vec<Option<String>>>)
    ensures
        r matches Some(vs) ==> values_for(crate::model::opt_view(*value), b@, a@, pairs_view(known@), *c, files@)
            == Some(opts_view(vs@)),
        r is None ==> values_for(crate::model::opt_view(*value), b@, a@, pairs_view(known@), *c, files@) is None,
{
    let v = match value {
        None => {
            let mut r: Vec<Option<String>> = Vec::new();
            r.push(None);
            assert(opts_view(r@) =~= seq![None]);
            return Some(r);
        },
        Some(v) => text_of(v),
    };
    let resolved = match receiver_accessor_values_exec(&v, c, files) {
        Some(x) => x,
        None => match receiver_field_values_exec(&v, c, files) {
            Some(x) => x,
            None => match producer_event_key_exec(&v, c) {
                Some(x) => x,
                None => match binding_values_exec(&v, b, a, 0) {
                    Some(x) => x,
                    None => return None,
                },
            },
        },
    };
    let ghost rv = texts(resolved@);
    let ghost kv = pairs_view(known@);
    let mut vals: Vec<String> = Vec::new();
    let mut i: usize = 0;
    while i < resolved.len()
        invariant
            i <= resolved@.len(),
            rv == texts(resolved@),
            kv == pairs_view(known@),
            texts(vals@) == all_concrete(rv, kv, i as int),
        decreases resolved.len() - i,
    {
        let cv = concrete_values_exec(&text_of(&resolved[i]), known);
        let ghost before = texts(vals@);
        let mut j: usize = 0;
        while j < cv.len()
            invariant
                j <= cv@.len(),
                texts(vals@) == before + texts(cv@).take(j as int),
            decreases cv.len() - j,
        {
            let x = cv[j].clone();
            let ghost mid = texts(vals@);
            vals.push(x);
            assert(texts(vals@) =~= mid.push(cv@[j as int]@));
            assert(texts(cv@).take(j + 1) =~= texts(cv@).take(j as int).push(cv@[j as int]@));
            assert(texts(vals@) =~= before + texts(cv@).take(j + 1));
            j = j + 1;
        }
        assert(texts(cv@).take(cv@.len() as int) =~= texts(cv@));
        assert(rv[i as int] == resolved@[i as int]@);
        i = i + 1;
    }
    if vals.len() == 0 {
        Some(somes_exec(resolved))
    } else {
        Some(somes_exec(vals))
    }
}

} // verus!
