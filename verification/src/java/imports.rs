//! Imports of Java sources and the single-file import graph built from them.
use vstd::prelude::*;

use crate::model::{
    import_entries_view, import_entry_view, import_lookup, import_position, lemma_import_position, ImportEntryView, ImportGraph, ImportKind, Import, ResolvedImport,
};
use crate::text::{after_last, after_last_exec, chars_eq, chars_of, string_of, text_of};

verus! {

/// One capture of an import match: the scoped package name, or the `*` of
/// an on-demand import.
pub enum ImportCapture {
    Scoped(String),
    Asterisk,
    Other,
}

/// Finds the imports of Java sources.
pub struct ImportsExtractor;

pub type ImportView = (Seq<char>, Seq<char>, Seq<char>, Seq<char>, Seq<char>);

/// An import as plain values: module, name, module alias, name alias and
/// the word it is used by.
pub open spec fn import_view(i: Import) -> ImportView {
    (i.orig_module@, i.orig_name@, i.module_alias@, i.name_alias@, i.codeword@)
}

pub open spec fn imports_view(v: Seq<Import>) -> Seq<ImportView> {
    v.map_values(|i: Import| import_view(i))
}

/// The last identifier of a dotted package name.
pub fn get_package_last_identifier(package: &str) -> (r: String)
    ensures
        r@ == after_last(package@, '.'),
{
    string_of(&after_last_exec(&chars_of(package), '.'))
}

/// The package and whether the import is on demand, after the captures.
pub open spec fn import_state(cs: Seq<ImportCapture>) -> (Seq<char>, bool)
    decreases cs.len(),
{
    if cs.len() == 0 {
        (Seq::empty(), false)
    } else {
        let st = import_state(cs.drop_last());
        match cs.last() {
            ImportCapture::Scoped(v) => (v@, st.1),
            ImportCapture::Asterisk => (st.0, true),
            ImportCapture::Other => st,
        }
    }
}

/// The import a match describes: the package, imported (and used) by its
/// last identifier, or by `*` when on demand.
pub open spec fn match_import(cs: Seq<ImportCapture>) -> ImportView {
    let st = import_state(cs);
    let name = if st.1 {
        "*"@
    } else {
        after_last(st.0, '.')
    };
    (st.0, name, Seq::empty(), Seq::empty(), name)
}

impl ImportsExtractor {
    fn match_import_exec(caps: &Vec<ImportCapture>) -> (r: Import)
        ensures
            import_view(r) == match_import(caps@),
    {
        let mut package = String::new();
        let mut asterisk = false;
        proof {
            reveal_strlit("");
        }
        let mut i: usize = 0;
        while i < caps.len()
            invariant
                i <= caps@.len(),
                (package@, asterisk) == import_state(caps@.take(i as int)),
            decreases caps.len() - i,
        {
            assert(caps@.take(i + 1).drop_last() =~= caps@.take(i as int));
            assert(caps@.take(i + 1).last() == caps@[i as int]);
            match &caps[i] {
                ImportCapture::Scoped(v) => {
                    package = v.clone();
                },
                ImportCapture::Asterisk => {
                    asterisk = true;
                },
                ImportCapture::Other => {},
            }
            i = i + 1;
        }
        assert(caps@.take(caps@.len() as int) =~= caps@);
        let name = if asterisk {
            "*".to_string()
        } else {
            get_package_last_identifier(package.as_str())
        };
        Import {
            orig_module: package,
            orig_name: name.clone(),
            module_alias: String::new(),
            name_alias: String::new(),
            codeword: name,
        }
    }

    /// The import of every match, in order.
    pub fn extract(&self, matches: &[Vec<ImportCapture>]) -> (r: Vec<Import>)
        ensures
            r@.len() == matches@.len(),
            forall|i: int| 0 <= i < r@.len() ==> import_view(#[trigger] r@[i]) == match_import(matches@[i]@),
    {
        let mut out: Vec<Import> = Vec::new();
        let mut i: usize = 0;
        while i < matches.len()
            invariant
                i <= matches@.len(),
                out@.len() == i,
                forall|k: int| 0 <= k < i ==> import_view(#[trigger] out@[k]) == match_import(matches@[k]@),
            decreases matches.len() - i,
        {
            out.push(Self::match_import_exec(&matches[i]));
            i = i + 1;
        }
        out
    }
}

/// The entries with `(k, v)` set: the entry of key `k` takes the value `v`
/// where there is one, else the entry is added at the end.
pub open spec fn upsert_entry(es: Seq<ImportEntryView>, k: (Seq<char>, Seq<char>), v: (Seq<char>, Seq<char>, ImportKind)) -> Seq<ImportEntryView> {
    match import_position(es, k.0, k.1) {
        Some(p) => es.update(p, (k, v)),
        None => es.push((k, v)),
    }
}

/// The single-file graph: for each import but an on-demand one, in order,
/// the entry of the word it is used by in this file, naming its module; a
/// later import of the same word replaces the earlier one.
pub open spec fn graph_entries(file_path: Seq<char>, imports: Seq<ImportView>) -> Seq<ImportEntryView>
    decreases imports.len(),
{
    if imports.len() == 0 {
        Seq::empty()
    } else {
        let i = imports.last();
        let prev = graph_entries(file_path, imports.drop_last());
        if i.1 == "*"@ {
            prev
        } else {
            upsert_entry(prev, (file_path, i.4), (Seq::empty(), i.0, ImportKind::Entity))
        }
    }
}

/// No two entries have the same key.
pub open spec fn distinct_import_keys(es: Seq<ImportEntryView>) -> bool {
    forall|i: int, j: int| 0 <= i < j < es.len() ==> (#[trigger] es[i]).0 != (#[trigger] es[j]).0
}

proof fn lemma_position_none(es: Seq<ImportEntryView>, file: Seq<char>, name: Seq<char>)
    ensures
        import_position(es, file, name) is None <==> forall|i: int| 0 <= i < es.len() ==> (#[trigger] es[i]).0 != (file, name),
    decreases es.len(),
{
    if es.len() > 0 {
        let d = es.drop_last();
        lemma_position_none(d, file, name);
        if import_position(es, file, name) is None {
            assert forall|i: int| 0 <= i < es.len() implies (#[trigger] es[i]).0 != (file, name) by {
                if i < d.len() {
                    assert(d[i] == es[i]);
                }
            }
        }
        if forall|i: int| 0 <= i < es.len() ==> (#[trigger] es[i]).0 != (file, name) {
            assert(es[es.len() - 1].0 != (file, name));
            assert forall|i: int| 0 <= i < d.len() implies (#[trigger] d[i]).0 != (file, name) by {
                assert(d[i] == es[i]);
            }
        }
    }
}

/// Setting an entry keeps the keys distinct, and gives the key its value.
pub proof fn lemma_upsert_entry(es: Seq<ImportEntryView>, k: (Seq<char>, Seq<char>), v: (Seq<char>, Seq<char>, ImportKind))
    requires
        distinct_import_keys(es),
    ensures
        distinct_import_keys(upsert_entry(es, k, v)),
        import_lookup(upsert_entry(es, k, v), k.0, k.1) == Some(v),
{
    lemma_import_position(es, k.0, k.1);
    lemma_position_none(es, k.0, k.1);
    let u = upsert_entry(es, k, v);
    lemma_import_position(u, k.0, k.1);
    lemma_position_none(u, k.0, k.1);
    match import_position(es, k.0, k.1) {
        Some(p) => {
            assert forall|i: int, j: int| 0 <= i < j < u.len() implies (#[trigger] u[i]).0 != (#[trigger] u[j]).0 by {
                if i != p && j != p {
                    assert(es[i].0 != es[j].0);
                } else if i == p {
                    assert(es[j].0 != es[p].0);
                } else {
                    assert(es[i].0 != es[p].0);
                }
            }
            assert(u[p].0 == k);
            if import_position(u, k.0, k.1) != Some(p) {
                let q = import_position(u, k.0, k.1)->0;
                assert(u[q].0 == k);
                assert(q != p ==> u[q].0 != u[p].0);
            }
        },
        None => {
            assert forall|i: int, j: int| 0 <= i < j < u.len() implies (#[trigger] u[i]).0 != (#[trigger] u[j]).0 by {
                if j == es.len() {
                    assert(es[i].0 != k);
                } else {
                    assert(es[i].0 != es[j].0);
                }
            }
            assert(u.drop_last() =~= es);
        },
    }
}

/// The graph's keys are distinct.
pub proof fn lemma_graph_keys_distinct(file_path: Seq<char>, imports: Seq<ImportView>)
    ensures
        distinct_import_keys(graph_entries(file_path, imports)),
    decreases imports.len(),
{
    if imports.len() > 0 {
        lemma_graph_keys_distinct(file_path, imports.drop_last());
        let i = imports.last();
        if i.1 != "*"@ {
            lemma_upsert_entry(graph_entries(file_path, imports.drop_last()), (file_path, i.4), (Seq::empty(), i.0, ImportKind::Entity));
        }
    }
}

proof fn lemma_position_unique(es: Seq<ImportEntryView>, q: int, file: Seq<char>, name: Seq<char>)
    requires
        distinct_import_keys(es),
        0 <= q < es.len(),
        es[q].0 == (file, name),
    ensures
        import_position(es, file, name) == Some(q),
{
    lemma_import_position(es, file, name);
    lemma_position_none(es, file, name);
    let r = import_position(es, file, name)->0;
    if r < q {
        assert(es[r].0 != es[q].0);
    } else if r > q {
        assert(es[q].0 != es[r].0);
    }
}

proof fn lemma_upsert_other(
    es: Seq<ImportEntryView>,
    k: (Seq<char>, Seq<char>),
    v: (Seq<char>, Seq<char>, ImportKind),
    k2: (Seq<char>, Seq<char>),
)
    requires
        distinct_import_keys(es),
        k2 != k,
    ensures
        import_lookup(upsert_entry(es, k, v), k2.0, k2.1) == import_lookup(es, k2.0, k2.1),
{
    let u = upsert_entry(es, k, v);
    lemma_upsert_entry(es, k, v);
    lemma_import_position(es, k2.0, k2.1);
    lemma_position_none(es, k2.0, k2.1);
    lemma_position_none(u, k2.0, k2.1);
    lemma_import_position(es, k.0, k.1);
    match import_position(es, k2.0, k2.1) {
        Some(q) => {
            assert(u[q] == es[q]);
            lemma_position_unique(u, q, k2.0, k2.1);
        },
        None => {
            assert forall|i: int| 0 <= i < u.len() implies (#[trigger] u[i]).0 != k2 by {
                if i < es.len() && u[i] == es[i] {
                } else {
                    assert(u[i].0 == k);
                }
            }
        },
    }
}

/// Looking up the word of an import in the graph gives the module of the
/// last import of that word (on-demand imports aside).
pub proof fn lemma_graph_lookup_last(file_path: Seq<char>, imports: Seq<ImportView>, k: int)
    requires
        0 <= k < imports.len(),
        imports[k].1 != "*"@,
        forall|j: int| k < j < imports.len() ==> (#[trigger] imports[j]).1 == "*"@ || imports[j].4 != imports[k].4,
    ensures
        import_lookup(graph_entries(file_path, imports), file_path, imports[k].4) == Some(
            (Seq::<char>::empty(), imports[k].0, ImportKind::Entity),
        ),
    decreases imports.len(),
{
    let d = imports.drop_last();
    let i = imports.last();
    lemma_graph_keys_distinct(file_path, d);
    if k == imports.len() - 1 {
        lemma_upsert_entry(graph_entries(file_path, d), (file_path, i.4), (Seq::empty(), i.0, ImportKind::Entity));
    } else {
        assert forall|j: int| k < j < d.len() implies (#[trigger] d[j]).1 == "*"@ || d[j].4 != d[k].4 by {
            assert(d[j] == imports[j]);
        }
        lemma_graph_lookup_last(file_path, d, k);
        assert(imports[imports.len() - 1] == i);
        if i.1 != "*"@ {
            lemma_upsert_other(graph_entries(file_path, d), (file_path, i.4), (Seq::empty(), i.0, ImportKind::Entity), (file_path, imports[k].4));
        }
    }
}

/// The position of key `(file, name)` among the entries, searched from the end.
fn find_entry(entries: &Vec<((String, String), ResolvedImport)>, file: &[char], name: &[char]) -> (r: Option<usize>)
    ensures
        r matches Some(p) ==> p < entries@.len() && import_position(import_entries_view(entries@), file@, name@) == Some(p as int),
        r is None ==> import_position(import_entries_view(entries@), file@, name@) is None,
{
    let ghost es = import_entries_view(entries@);
    let mut j: usize = entries.len();
    assert(es.take(j as int) =~= es);
    while j > 0
        invariant
            j <= entries@.len(),
            es == import_entries_view(entries@),
            import_position(es, file@, name@) == import_position(es.take(j as int), file@, name@),
        decreases j,
    {
        let e = &entries[j - 1];
        assert(es.take(j as int).last() == import_entry_view(*e));
        assert(es.take(j as int).drop_last() =~= es.take(j - 1));
        if chars_eq(&text_of(&e.0.0), file) && chars_eq(&text_of(&e.0.1), name) {
            return Some(j - 1);
        }
        j = j - 1;
    }
    assert(es.take(0) =~= Seq::<ImportEntryView>::empty());
    None
}

/// The single-file import graph of a file's imports.
pub fn imports_to_graph(file_path: &str, imports: &[Import]) -> (r: ImportGraph)
    ensures
        import_entries_view(r.resolved_imports@) == graph_entries(file_path@, imports_view(imports@)),
        distinct_import_keys(import_entries_view(r.resolved_imports@)),
{
    let ghost iv = imports_view(imports@);
    let star = chars_of("*");
    let fp = chars_of(file_path);
    let mut entries: Vec<((String, String), ResolvedImport)> = Vec::new();
    let mut i: usize = 0;
    proof {
        reveal_strlit("");
    }
    while i < imports.len()
        invariant
            i <= imports@.len(),
            iv == imports_view(imports@),
            star@ == "*"@,
            fp@ == file_path@,
            import_entries_view(entries@) == graph_entries(file_path@, iv.take(i as int)),
        decreases imports.len() - i,
    {
        assert(iv.take(i + 1).drop_last() =~= iv.take(i as int));
        assert(iv.take(i + 1).last() == import_view(imports@[i as int]));
        let imp = &imports[i];
        if !chars_eq(&text_of(&imp.orig_name), &star) {
            let ghost before = import_entries_view(entries@);
            let entry = (
                (file_path.to_string(), imp.codeword.clone()),
                ResolvedImport {
                    source_file: String::new(),
                    fully_qualified_name: imp.orig_module.clone(),
                    kind: ImportKind::Entity,
                },
            );
            let ghost ev = import_entry_view(entry);
            assert(ev == ((file_path@, imp.codeword@), (Seq::<char>::empty(), imp.orig_module@, ImportKind::Entity)));
            match find_entry(&entries, &fp, &text_of(&imp.codeword)) {
                Some(p) => {
                    entries.set(p, entry);
                    assert(import_entries_view(entries@) =~= before.update(p as int, ev));
                },
                None => {
                    entries.push(entry);
                    assert(import_entries_view(entries@) =~= before.push(ev));
                },
            }
        }
        assert(import_entries_view(entries@) =~= graph_entries(file_path@, iv.take(i + 1)));
        i = i + 1;
    }
    assert(iv.take(imports@.len() as int) =~= iv);
    proof {
        lemma_graph_keys_distinct(file_path@, iv);
    }
    ImportGraph { resolved_imports: entries }
}

} // verus!
