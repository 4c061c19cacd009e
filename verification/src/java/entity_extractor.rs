//! Entities of Java sources (classes, interfaces, records, enums) with their
//! fields, and the resolution of field types to entity signatures.
use vstd::prelude::*;

use crate::java::entities::{inner_type, inner_type_exec, is_collection_type, is_fqdn, is_fqdn_exec, is_java_collection_type};
use crate::model::{
    entities_view, entity_view, field_view, fields_view, import_entries_view, import_lookup, opt_view,
    Entity, EntityView, Field, FieldView, ImportGraph, ImportKind,
};
use crate::sorting::texts;
use crate::text::{chars_eq, string_of, text_of};

verus! {

/// The texts of a field or parameter node's `type`, `name` and (for a
/// field) initial `value` children.
pub struct FieldParts {
    pub datatype: Option<String>,
    pub name: Option<String>,
    pub value: Option<String>,
}

pub open spec fn text_or_empty(o: Option<String>) -> Seq<char> {
    match o {
        Some(x) => x@,
        None => Seq::empty(),
    }
}

pub open spec fn collection_flag(d: Option<String>) -> bool {
    match d {
        Some(t) => is_collection_type(t@),
        None => false,
    }
}

/// A record component or formal parameter as a field.
pub open spec fn formal_parameter(p: FieldParts) -> FieldView {
    (text_or_empty(p.name), opt_view(p.datatype), None, None, collection_flag(p.datatype))
}

/// A field declaration as a field; one without a name gives none.
pub open spec fn field_declaration(p: FieldParts) -> Option<FieldView> {
    let name = text_or_empty(p.name);
    if name.len() == 0 {
        None
    } else {
        Some((name, opt_view(p.datatype), opt_view(p.value), None, collection_flag(p.datatype)))
    }
}

pub open spec fn formal_parameters(ps: Seq<FieldParts>) -> Seq<FieldView> {
    ps.map_values(|p: FieldParts| formal_parameter(p))
}

pub open spec fn field_declarations(ps: Seq<FieldParts>) -> Seq<FieldView>
    decreases ps.len(),
{
    if ps.len() == 0 {
        Seq::empty()
    } else {
        field_declarations(ps.drop_last()) + match field_declaration(ps.last()) {
            Some(f) => seq![f],
            None => Seq::empty(),
        }
    }
}

fn field_of(p: &FieldParts, with_value: bool) -> (r: Field)
    ensures
        field_view(r) == (
            text_or_empty(p.name),
            opt_view(p.datatype),
            if with_value {
                opt_view(p.value)
            } else {
                None
            },
            None::<Seq<char>>,
            collection_flag(p.datatype),
        ),
{
    let name = match &p.name {
        Some(n) => n.clone(),
        None => String::new(),
    };
    proof {
        reveal_strlit("");
    }
    let is_collection = match &p.datatype {
        Some(t) => is_java_collection_type(t.as_str()),
        None => false,
    };
    Field {
        name,
        datatype: crate::model::copy_opt(&p.datatype),
        initial_value: if with_value {
            crate::model::copy_opt(&p.value)
        } else {
            None
        },
        datatype_signature: None,
        is_collection,
    }
}

/// The fields of record components or formal parameters.
pub fn parse_formal_parameters(params: &[FieldParts]) -> (r: Vec<Field>)
    ensures
        fields_view(r@) == formal_parameters(params@),
{
    let mut out: Vec<Field> = Vec::new();
    let mut i: usize = 0;
    while i < params.len()
        invariant
            i <= params@.len(),
            out@.len() == i,
            fields_view(out@) == formal_parameters(params@.take(i as int)),
        decreases params.len() - i,
    {
        let ghost before = out@;
        out.push(field_of(&params[i], false));
        assert forall|k: int| 0 <= k < i + 1 implies fields_view(out@)[k] == formal_parameters(
            params@.take(i + 1),
        )[k] by {
            if k < i {
                assert(out@[k] == before[k]);
                assert(fields_view(before)[k] == formal_parameters(params@.take(i as int))[k]);
            }
        }
        assert(fields_view(out@) =~= formal_parameters(params@.take(i + 1)));
        i = i + 1;
    }
    assert(params@.take(params@.len() as int) =~= params@);
    out
}

/// The fields of field declarations that name a field.
pub fn parse_field_declarations(decls: &[FieldParts]) -> (r: Vec<Field>)
    ensures
        fields_view(r@) == field_declarations(decls@),
{
    let mut out: Vec<Field> = Vec::new();
    let mut i: usize = 0;
    while i < decls.len()
        invariant
            i <= decls@.len(),
            fields_view(out@) == field_declarations(decls@.take(i as int)),
        decreases decls.len() - i,
    {
        assert(decls@.take(i + 1).drop_last() =~= decls@.take(i as int));
        assert(decls@.take(i + 1).last() == decls@[i as int]);
        let has_name = match &decls[i].name {
            Some(n) => text_of(n).len() > 0,
            None => false,
        };
        proof {
            reveal_strlit("");
        }
        if has_name {
            out.push(field_of(&decls[i], true));
        }
        assert(fields_view(out@) =~= field_declarations(decls@.take(i + 1)));
        i = i + 1;
    }
    assert(decls@.take(decls@.len() as int) =~= decls@);
    out
}

/// One capture of an entity match, in the order of the match.
pub enum EntityCapture {
    Name(String),
    Superclass(String),
    Body(Vec<FieldParts>),
    RecordParams(Vec<FieldParts>),
    Package(String),
    Other,
}

/// Finds the entities of Java sources.
pub struct EntitiesExtractor;

/// What an entity match has read: name, superclasses, fields, record
/// components, and the package (which carries over to later matches).
pub type EntityState = (Seq<char>, Seq<Seq<char>>, Seq<FieldView>, Seq<FieldView>, Option<Seq<char>>);

pub open spec fn entity_step(st: EntityState, c: EntityCapture) -> EntityState {
    match c {
        EntityCapture::Name(v) => (v@, st.1, st.2, st.3, st.4),
        EntityCapture::Superclass(v) => (st.0, st.1.push(v@), st.2, st.3, st.4),
        EntityCapture::Body(ps) => (st.0, st.1, field_declarations(ps@), st.3, st.4),
        EntityCapture::RecordParams(ps) => (st.0, st.1, st.2, formal_parameters(ps@), st.4),
        EntityCapture::Package(v) => (st.0, st.1, st.2, st.3, Some(v@)),
        EntityCapture::Other => st,
    }
}

pub open spec fn run_entity_captures(cs: Seq<EntityCapture>, package: Option<Seq<char>>) -> EntityState
    decreases cs.len(),
{
    if cs.len() == 0 {
        (Seq::empty(), Seq::empty(), Seq::empty(), Seq::empty(), package)
    } else {
        entity_step(run_entity_captures(cs.drop_last(), package), cs.last())
    }
}

pub open spec fn entity_names(es: Seq<EntityView>) -> Seq<Seq<char>> {
    es.map_values(|e: EntityView| e.0)
}

/// The package and entities after the matches: each named entity not seen
/// before, with its fields followed by its record components and the
/// signature `package.Name`.
pub open spec fn entities_after(ms: Seq<Vec<EntityCapture>>, file_path: Seq<char>) -> (Option<Seq<char>>, Seq<EntityView>)
    decreases ms.len(),
{
    if ms.len() == 0 {
        (None, Seq::empty())
    } else {
        let prev = entities_after(ms.drop_last(), file_path);
        let st = run_entity_captures(ms.last()@, prev.0);
        if st.0.len() == 0 || entity_names(prev.1).contains(st.0) {
            (st.4, prev.1)
        } else {
            let pkg = match st.4 {
                Some(p) => p,
                None => Seq::empty(),
            };
            (st.4, prev.1.push((st.0, st.1, st.2 + st.3, pkg + "."@ + st.0, file_path)))
        }
    }
}

fn names_contain(out: &Vec<Entity>, name: &String) -> (r: bool)
    ensures
        r == entity_names(entities_view(out@)).contains(name@),
{
    let ghost ns = entity_names(entities_view(out@));
    let mut i: usize = 0;
    while i < out.len()
        invariant
            i <= out@.len(),
            ns == entity_names(entities_view(out@)),
            forall|j: int| 0 <= j < i ==> ns[j] != name@,
        decreases out.len() - i,
    {
        if chars_eq(&text_of(&out[i].name), &text_of(name)) {
            assert(ns[i as int] == name@);
            return true;
        }
        i = i + 1;
    }
    false
}

impl EntitiesExtractor {
    /// The entities of every match, each name once, in order of first
    /// appearance.
    pub fn extract(&self, matches: &[Vec<EntityCapture>], file_name: &str) -> (r: Vec<Entity>)
        ensures
            entities_view(r@) == entities_after(matches@, file_name@).1,
    {
        let mut out: Vec<Entity> = Vec::new();
        let mut package: Option<String> = None;
        let mut m: usize = 0;
        while m < matches.len()
            invariant
                m <= matches@.len(),
                (opt_view(package), entities_view(out@)) == entities_after(matches@.take(m as int), file_name@),
            decreases matches.len() - m,
        {
            assert(matches@.take(m + 1).drop_last() =~= matches@.take(m as int));
            assert(matches@.take(m + 1).last() == matches@[m as int]);
            let caps = &matches[m];
            let ghost pkg0 = opt_view(package);
            let mut name = String::new();
            let mut supers: Vec<String> = Vec::new();
            let mut fields: Vec<Field> = Vec::new();
            let mut record: Vec<Field> = Vec::new();
            proof {
                reveal_strlit("");
            }
            assert(texts(supers@) =~= Seq::empty());
            assert(fields_view(fields@) =~= Seq::empty());
            assert(fields_view(record@) =~= Seq::empty());
            let mut i: usize = 0;
            while i < caps.len()
                invariant
                    i <= caps@.len(),
                    (name@, texts(supers@), fields_view(fields@), fields_view(record@), opt_view(package))
                        == run_entity_captures(caps@.take(i as int), pkg0),
                decreases caps.len() - i,
            {
                assert(caps@.take(i + 1).drop_last() =~= caps@.take(i as int));
                assert(caps@.take(i + 1).last() == caps@[i as int]);
                match &caps[i] {
                    EntityCapture::Name(v) => {
                        name = v.clone();
                    },
                    EntityCapture::Superclass(v) => {
                        let ghost before = supers@;
                        supers.push(v.clone());
                        assert(texts(supers@) =~= texts(before).push(v@));
                    },
                    EntityCapture::Body(ps) => {
                        fields = parse_field_declarations(ps.as_slice());
                    },
                    EntityCapture::RecordParams(ps) => {
                        record = parse_formal_parameters(ps.as_slice());
                    },
                    EntityCapture::Package(v) => {
                        package = Some(v.clone());
                    },
                    EntityCapture::Other => {},
                }
                i = i + 1;
            }
            assert(caps@.take(caps@.len() as int) =~= caps@);
            if text_of(&name).len() > 0 && !names_contain(&out, &name) {
                let ghost fv = fields_view(fields@);
                let ghost rv = fields_view(record@);
                fields.append(&mut record);
                assert(fields_view(fields@) =~= fv + rv);
                let mut sig = match &package {
                    Some(p) => text_of(p),
                    None => Vec::new(),
                };
                sig.push('.');
                crate::text::append_chars(&mut sig, &text_of(&name));
                assert(sig@ =~= (match opt_view(package) {
                    Some(p) => p,
                    None => Seq::<char>::empty(),
                }) + "."@ + name@) by {
                    reveal_strlit(".");
                }
                let ghost before = entities_view(out@);
                out.push(
                    Entity {
                        name,
                        superclasses: supers,
                        fields,
                        signature: string_of(&sig),
                        file_path: file_name.to_string(),
                    },
                );
                assert(entities_view(out@) =~= before.push(entity_view(out@.last())));
            }
            m = m + 1;
        }
        assert(matches@.take(matches@.len() as int) =~= matches@);
        out
    }
}

/// The last entity of a name.
pub open spec fn entity_named(es: Seq<EntityView>, name: Seq<char>) -> Option<int>
    decreases es.len(),
{
    if es.len() == 0 {
        None
    } else if es.last().0 == name {
        Some(es.len() - 1)
    } else {
        entity_named(es.drop_last(), name)
    }
}

proof fn lemma_entity_named(es: Seq<EntityView>, name: Seq<char>)
    ensures
        entity_named(es, name) matches Some(i) ==> 0 <= i < es.len() && es[i].0 == name,
    decreases es.len(),
{
    if es.len() > 0 {
        lemma_entity_named(es.drop_last(), name);
    }
}

/// A field's type signature resolved from its element type: a qualified
/// name as it is, else an entity import of the file, else an entity of the
/// same source; otherwise the field is left as it is.
pub open spec fn resolved_field(
    f: FieldView,
    file_path: Seq<char>,
    imports: Seq<crate::model::ImportEntryView>,
    entities: Seq<EntityView>,
) -> FieldView {
    match f.1 {
        None => f,
        Some(raw) => {
            let inner = inner_type(raw);
            if is_fqdn(inner) {
                (f.0, f.1, f.2, Some(inner), f.4)
            } else {
                match import_lookup(imports, file_path, inner) {
                    Some(ri) => if ri.2 == ImportKind::Entity {
                        (f.0, f.1, f.2, Some(ri.1), f.4)
                    } else {
                        f
                    },
                    None => match entity_named(entities, inner) {
                        Some(i) => (f.0, f.1, f.2, Some(entities[i].3), f.4),
                        None => f,
                    },
                }
            }
        },
    }
}

pub open spec fn resolved_entity(
    e: EntityView,
    file_path: Seq<char>,
    imports: Seq<crate::model::ImportEntryView>,
    entities: Seq<EntityView>,
) -> EntityView {
    (e.0, e.1, e.2.map_values(|f: FieldView| resolved_field(f, file_path, imports, entities)), e.3, e.4)
}

#[verifier::loop_isolation(false)]
fn resolve_field(
    f: &mut Field,
    file_path: &[char],
    graph: &ImportGraph,
    entities: &Vec<Entity>,
    names: &Vec<Vec<char>>,
)
    requires
        crate::text::views(names@) == entity_names(entities_view(entities@)),
    ensures
        field_view(*final(f)) == resolved_field(
            field_view(*old(f)),
            file_path@,
            import_entries_view(graph.resolved_imports@),
            entities_view(entities@),
        ),
{
    let raw = match &f.datatype {
        Some(r) => text_of(r),
        None => return,
    };
    let inner = inner_type_exec(&raw);
    let ghost fv = field_view(*f);
    assert(fv.1 == Some(raw@));
    if is_fqdn_exec(&inner) {
        f.datatype_signature = Some(string_of(&inner));
        return;
    }
    match graph.lookup(file_path, &inner) {
        Some(ri) => {
            if ri.kind == ImportKind::Entity {
                f.datatype_signature = Some(ri.fully_qualified_name.clone());
                assert(field_view(*f) == (fv.0, fv.1, fv.2, Some(ri.fully_qualified_name@), fv.4));
            }
            assert(!is_fqdn(inner@));
            assert(import_lookup(import_entries_view(graph.resolved_imports@), file_path@, inner@) == Some((ri.source_file@, ri.fully_qualified_name@, ri.kind)));
        },
        None => {
            let ghost ev = entities_view(entities@);
            assert(names@.len() == entities@.len()) by {
                assert(crate::text::views(names@).len() == entity_names(ev).len());
            }
            proof {
                lemma_entity_named(ev, inner@);
            }
            let mut i: usize = entities.len();
            assert(ev.take(i as int) =~= ev);
            while i > 0
                invariant
                    i <= entities@.len(),
                    ev == entities_view(entities@),
                    crate::text::views(names@) == entity_names(ev),
                    entity_named(ev, inner@) == entity_named(ev.take(i as int), inner@),
                field_view(*f) == fv,
                fv == field_view(*old(f)),
                fv.1 == Some(raw@),
                inner@ == inner_type(raw@),
                !is_fqdn(inner@),
                import_lookup(import_entries_view(graph.resolved_imports@), file_path@, inner@) is None,
                ev == entities_view(entities@),
                names@.len() == entities@.len(),
                crate::text::views(names@) == entity_names(ev),
                decreases i,
            {
                assert(ev.take(i as int).drop_last() =~= ev.take(i - 1));
                assert(ev.take(i as int).last() == ev[i - 1]);
                assert(crate::text::views(names@)[i - 1] == names@[i - 1]@);
                assert(entity_names(ev)[i - 1] == ev[i - 1].0);
                if chars_eq(&names[i - 1], &inner) {
                    assert(entity_named(ev.take(i as int), inner@) == Some(i - 1));
                    f.datatype_signature = Some(entities[i - 1].signature.clone());
                    return;
                }
                i = i - 1;
            }
            assert(ev.take(0) =~= Seq::<EntityView>::empty());
        },
    }
}

/// Resolves the type signature of every field of the entities of a source
/// file against the file's imports and the entities themselves.
pub fn evaluate_entity_fields(entities: &mut Vec<Entity>, file_path: &str, import_graph: &ImportGraph)
    ensures
        entities_view(final(entities)@) == entities_view(old(entities)@).map_values(
            |e: EntityView|
                resolved_entity(
                    e,
                    file_path@,
                    import_entries_view(import_graph.resolved_imports@),
                    entities_view(old(entities)@),
                ),
        ),
{
    let ghost original = entities_view(entities@);
    let ghost iv = import_entries_view(import_graph.resolved_imports@);
    let mut snapshot: Vec<Entity> = Vec::new();
    let mut names: Vec<Vec<char>> = Vec::new();
    let fp = crate::text::chars_of(file_path);
    let mut done: Vec<Entity> = Vec::new();
    std::mem::swap(&mut snapshot, entities);
    let n = snapshot.len();
    let mut k: usize = 0;
    while k < n
        invariant
            k <= n,
            n == snapshot@.len(),
            entities_view(snapshot@) == original,
            names@.len() == k,
            forall|j: int| 0 <= j < k ==> (#[trigger] names@[j])@ == original[j].0,
        decreases n - k,
    {
        names.push(text_of(&snapshot[k].name));
        k = k + 1;
    }
    assert(crate::text::views(names@) =~= entity_names(original));
    let mut i: usize = 0;
    while i < n
        invariant
            i <= n,
            n == snapshot@.len(),
            entities_view(snapshot@) == original,
            crate::text::views(names@) == entity_names(original),
            fp@ == file_path@,
            iv == import_entries_view(import_graph.resolved_imports@),
            entities_view(done@) == original.take(i as int).map_values(
                |e: EntityView| resolved_entity(e, file_path@, iv, original),
            ),
        decreases n - i,
    {
        let e = &snapshot[i];
        let mut fields: Vec<Field> = Vec::new();
        let mut j: usize = 0;
        while j < e.fields.len()
            invariant
                j <= e.fields@.len(),
                crate::text::views(names@) == entity_names(entities_view(snapshot@)),
                fp@ == file_path@,
                fields_view(fields@) == fields_view(e.fields@).take(j as int).map_values(
                    |f: FieldView| resolved_field(f, file_path@, iv, original),
                ),
                entities_view(snapshot@) == original,
                iv == import_entries_view(import_graph.resolved_imports@),
            decreases e.fields.len() - j,
        {
            let src = &e.fields[j];
            let mut f = Field {
                name: src.name.clone(),
                datatype: crate::model::copy_opt(&src.datatype),
                initial_value: crate::model::copy_opt(&src.initial_value),
                datatype_signature: crate::model::copy_opt(&src.datatype_signature),
                is_collection: src.is_collection,
            };
            resolve_field(&mut f, &fp, import_graph, &snapshot, &names);
            let ghost before = fields_view(fields@);
            fields.push(f);
            assert(fields_view(fields@) =~= before.push(field_view(f)));
            assert(fields_view(e.fields@).take(j + 1) =~= fields_view(e.fields@).take(j as int).push(
                field_view(*src),
            ));
            j = j + 1;
        }
        assert(fields_view(e.fields@).take(e.fields@.len() as int) =~= fields_view(e.fields@));
        let mut supers: Vec<String> = Vec::new();
        let mut s: usize = 0;
        while s < e.superclasses.len()
            invariant
                s <= e.superclasses@.len(),
                supers@.len() == s,
                texts(supers@) == texts(e.superclasses@).take(s as int),
            decreases e.superclasses.len() - s,
        {
            let ghost sb = supers@;
            supers.push(e.superclasses[s].clone());
            assert forall|k: int| 0 <= k < s + 1 implies texts(supers@)[k] == texts(e.superclasses@).take(
                s + 1,
            )[k] by {
                if k < s {
                    assert(supers@[k] == sb[k]);
                    assert(texts(sb)[k] == texts(e.superclasses@).take(s as int)[k]);
                }
            }
            assert(texts(supers@) =~= texts(e.superclasses@).take(s + 1));
            s = s + 1;
        }
        assert(texts(e.superclasses@).take(e.superclasses@.len() as int) =~= texts(e.superclasses@));
        let ghost before = entities_view(done@);
        assert(original[i as int] == entity_view(*e));
        let ghost want = resolved_entity(original[i as int], file_path@, iv, original);
        assert(fields_view(fields@) == want.2);
        assert(texts(supers@) == want.1);
        done.push(
            Entity {
                name: e.name.clone(),
                superclasses: supers,
                fields,
                signature: e.signature.clone(),
                file_path: e.file_path.clone(),
            },
        );
        assert(entity_view(done@.last()) == want);
        assert(entities_view(done@) =~= before.push(want));
        assert(entities_view(done@) =~= original.take(i + 1).map_values(
            |x: EntityView| resolved_entity(x, file_path@, iv, original),
        ));
        i = i + 1;
    }
    assert(original.take(n as int) =~= original);
    *entities = done;
}

/// The entities found name pairwise different, non-empty names.
pub proof fn lemma_entity_names_distinct(ms: Seq<Vec<EntityCapture>>, file_path: Seq<char>)
    ensures
        forall|a: int|
            0 <= a < entities_after(ms, file_path).1.len() ==> (#[trigger] entities_after(ms, file_path).1[a]).0.len()
                > 0,
        forall|a: int, b: int|
            0 <= a < b < entities_after(ms, file_path).1.len() ==> #[trigger] entities_after(ms, file_path).1[a].0
                != #[trigger] entities_after(ms, file_path).1[b].0,
    decreases ms.len(),
{
    if ms.len() > 0 {
        let prev = entities_after(ms.drop_last(), file_path);
        lemma_entity_names_distinct(ms.drop_last(), file_path);
        let st = run_entity_captures(ms.last()@, prev.0);
        let r = entities_after(ms, file_path).1;
        if !(st.0.len() == 0 || entity_names(prev.1).contains(st.0)) {
            assert(r.len() == prev.1.len() + 1);
            assert forall|a: int| 0 <= a < r.len() implies (#[trigger] r[a]).0.len() > 0 by {
                if a < prev.1.len() {
                    assert(r[a] == prev.1[a]);
                }
            }
            assert forall|a: int, b: int| 0 <= a < b < r.len() implies #[trigger] r[a].0 != #[trigger] r[b].0 by {
                assert(r[a] == prev.1[a]);
                if b < prev.1.len() {
                    assert(r[b] == prev.1[b]);
                } else {
                    assert(entity_names(prev.1)[a] == prev.1[a].0);
                }
            }
        }
    }
}

} // verus!
