use vstd::prelude::*;

use crate::schema::{
    clone_dtos, clone_entity, clone_field_type, DTOField, DTOV, Entity, EntityField,
    EntityFieldType, EntityV, FieldTypeV, FieldV, Schema, SchemaV, DTO,
};

verus! {

/// Why a comparison was aborted: the new snapshot's version does not advance
/// the old one, or a snapshot holds two entities with one identity token.
#[derive(Clone, Copy, PartialEq, Eq, Structural, Debug)]
pub enum CompareError {
    VersionNotAdvanced,
    DuplicateIdentity,
}

/// A structural change between two schema snapshots: a pure description of
/// intent, holding identity tokens and copied data, never references into
/// the snapshots that produced it.
pub enum SchemaChange {
    AddEntity(Entity),
    RemoveEntity(String),
    RenameEntity(String, String),
    ChangeEntity(String, Vec<FieldChange>),
}

/// A field-level change inside one entity, keyed by the field's identity
/// token.
pub enum FieldChange {
    ChangeNullable(u64, bool),
    Rename(u64, String),
    ChangeRule(u64, String, String),
    ChangeDTO(Vec<DTO>),
    AddField(EntityField),
    RemoveField(u64),
    ChangeType(u64, EntityFieldType),
}

/// Mathematical model of a schema change.
#[verifier::ext_equal]
pub enum SchemaChangeV {
    AddEntity(EntityV),
    RemoveEntity(Seq<char>),
    RenameEntity(Seq<char>, Seq<char>),
    ChangeEntity(Seq<char>, Seq<FieldChangeV>),
}

/// Mathematical model of a field-level change.
#[verifier::ext_equal]
pub enum FieldChangeV {
    ChangeNullable(u64, bool),
    Rename(u64, Seq<char>),
    ChangeRule(u64, Seq<char>, Seq<char>),
    ChangeDTO(Seq<DTOV>),
    AddField(FieldV),
    RemoveField(u64),
    ChangeType(u64, FieldTypeV),
}

impl View for FieldChange {
    type V = FieldChangeV;

    open spec fn view(&self) -> FieldChangeV {
        match self {
            FieldChange::ChangeNullable(id, n) => FieldChangeV::ChangeNullable(*id, *n),
            FieldChange::Rename(id, n) => FieldChangeV::Rename(*id, n@),
            FieldChange::ChangeRule(id, v, g) => FieldChangeV::ChangeRule(*id, v@, g@),
            FieldChange::ChangeDTO(ds) => FieldChangeV::ChangeDTO(ds.deep_view()),
            FieldChange::AddField(f) => FieldChangeV::AddField(f.deep_view()),
            FieldChange::RemoveField(id) => FieldChangeV::RemoveField(*id),
            FieldChange::ChangeType(id, k) => FieldChangeV::ChangeType(*id, k.deep_view()),
        }
    }
}

impl DeepView for FieldChange {
    type V = FieldChangeV;

    open spec fn deep_view(&self) -> FieldChangeV {
        self.view()
    }
}

impl View for SchemaChange {
    type V = SchemaChangeV;

    open spec fn view(&self) -> SchemaChangeV {
        match self {
            SchemaChange::AddEntity(e) => SchemaChangeV::AddEntity(e.deep_view()),
            SchemaChange::RemoveEntity(u) => SchemaChangeV::RemoveEntity(u@),
            SchemaChange::RenameEntity(u, n) => SchemaChangeV::RenameEntity(u@, n@),
            SchemaChange::ChangeEntity(u, cs) => SchemaChangeV::ChangeEntity(u@, cs.deep_view()),
        }
    }
}

impl DeepView for SchemaChange {
    type V = SchemaChangeV;

    open spec fn deep_view(&self) -> SchemaChangeV {
        self.view()
    }
}

/// The first field of the sequence carrying the identity token.
pub open spec fn find_field(fs: Seq<FieldV>, id: u64) -> Option<FieldV>
    decreases fs.len(),
{
    if fs.len() == 0 {
        None
    } else if fs[0].id == id {
        Some(fs[0])
    } else {
        find_field(fs.drop_first(), id)
    }
}

/// The first entity of the sequence carrying the identity token.
pub open spec fn find_entity(es: Seq<EntityV>, u: Seq<char>) -> Option<EntityV>
    decreases es.len(),
{
    if es.len() == 0 {
        None
    } else if es[0].uuid == u {
        Some(es[0])
    } else {
        find_entity(es.drop_first(), u)
    }
}

/// The validation pattern of a text type; empty for any other type.
pub open spec fn text_validate(k: FieldTypeV) -> Seq<char> {
    match k {
        FieldTypeV::TEXT { validate, .. } => validate,
        _ => Seq::empty(),
    }
}

/// The generation pattern of a text type; empty for any other type.
pub open spec fn text_generate(k: FieldTypeV) -> Seq<char> {
    match k {
        FieldTypeV::TEXT { generate, .. } => generate,
        _ => Seq::empty(),
    }
}

/// Whether two field types agree on everything except the text validation
/// and generation patterns; disagreement is a destructive type change.
pub open spec fn same_base_type(a: FieldTypeV, b: FieldTypeV) -> bool {
    match a {
        FieldTypeV::TEXT { min: am, max: ax, .. } => match b {
            FieldTypeV::TEXT { min: bm, max: bx, .. } => am == bm && ax == bx,
            _ => false,
        },
        FieldTypeV::NUMBER { min: am, max: ax, is_int: ai } => match b {
            FieldTypeV::NUMBER { min: bm, max: bx, is_int: bi } => am == bm && ax == bx && ai
                == bi,
            _ => false,
        },
        FieldTypeV::BOOL => b is BOOL,
        FieldTypeV::DATE { min_date: am, max_date: ax } => match b {
            FieldTypeV::DATE { min_date: bm, max_date: bx } => am == bm && ax == bx,
            _ => false,
        },
        FieldTypeV::RELATION { target: at } => match b {
            FieldTypeV::RELATION { target: bt } => at == bt,
            _ => false,
        },
        FieldTypeV::RELATION_MANY { targets: ats } => match b {
            FieldTypeV::RELATION_MANY { targets: bts } => ats == bts,
            _ => false,
        },
    }
}

/// Whether both types are text and their validation or generation pattern
/// differs.
pub open spec fn rules_changed(a: FieldTypeV, b: FieldTypeV) -> bool {
    a is TEXT && b is TEXT && (text_validate(a) != text_validate(b) || text_generate(a)
        != text_generate(b))
}

/// The changes between one field of the old snapshot and the field with the
/// same identity token in the new one, in a fixed order: rename, nullable
/// flag, text rules, then a destructive change of the base type.
pub open spec fn field_pair_changes(f: FieldV, g: FieldV) -> Seq<FieldChangeV> {
    (if f.name != g.name {
        seq![FieldChangeV::Rename(f.id, g.name)]
    } else {
        Seq::empty()
    }) + (if f.nullable != g.nullable {
        seq![FieldChangeV::ChangeNullable(f.id, g.nullable)]
    } else {
        Seq::empty()
    }) + (if same_base_type(f.kind, g.kind) && rules_changed(f.kind, g.kind) {
        seq![FieldChangeV::ChangeRule(f.id, text_validate(g.kind), text_generate(g.kind))]
    } else {
        Seq::empty()
    }) + (if !same_base_type(f.kind, g.kind) {
        seq![FieldChangeV::ChangeType(f.id, g.kind)]
    } else {
        Seq::empty()
    })
}

/// Walks the old snapshot's fields: a non-base field missing from the new
/// snapshot is removed; a matched non-base field contributes its pair
/// changes. Base fields never take part.
pub open spec fn matched_field_changes(oldf: Seq<FieldV>, newf: Seq<FieldV>) -> Seq<FieldChangeV>
    decreases oldf.len(),
{
    if oldf.len() == 0 {
        Seq::empty()
    } else {
        let f = oldf[0];
        let rest = matched_field_changes(oldf.drop_first(), newf);
        if f.base {
            rest
        } else {
            match find_field(newf, f.id) {
                None => seq![FieldChangeV::RemoveField(f.id)] + rest,
                Some(g) => field_pair_changes(f, g) + rest,
            }
        }
    }
}

/// Walks the new snapshot's fields: a non-base field whose identity token is
/// unknown to the old snapshot is added.
pub open spec fn added_field_changes(oldf: Seq<FieldV>, newf: Seq<FieldV>) -> Seq<FieldChangeV>
    decreases newf.len(),
{
    if newf.len() == 0 {
        Seq::empty()
    } else {
        let g = newf[0];
        let rest = added_field_changes(oldf, newf.drop_first());
        if !g.base && find_field(oldf, g.id) is None {
            seq![FieldChangeV::AddField(g)] + rest
        } else {
            rest
        }
    }
}

/// All field-level changes between two matched entities: removals and pair
/// changes, additions, then one change for a differing derived-view list.
pub open spec fn entity_changes(olde: EntityV, newe: EntityV) -> Seq<FieldChangeV> {
    matched_field_changes(olde.fields, newe.fields) + added_field_changes(
        olde.fields,
        newe.fields,
    ) + (if olde.dtos == newe.dtos {
        Seq::empty()
    } else {
        seq![FieldChangeV::ChangeDTO(newe.dtos)]
    })
}

/// The changes one old entity contributes: a removal when its identity token
/// is gone; otherwise a rename when the names differ and, independently, one
/// change record when any field-level change exists.
pub open spec fn entity_entry_changes(e: EntityV, news: Seq<EntityV>) -> Seq<SchemaChangeV> {
    match find_entity(news, e.uuid) {
        None => seq![SchemaChangeV::RemoveEntity(e.uuid)],
        Some(n) => (if e.name != n.name {
            seq![SchemaChangeV::RenameEntity(e.uuid, n.name)]
        } else {
            Seq::empty()
        }) + (if entity_changes(e, n).len() == 0 {
            Seq::empty()
        } else {
            seq![SchemaChangeV::ChangeEntity(e.uuid, entity_changes(e, n))]
        }),
    }
}

/// Removals, renames and per-entity change records, in the old snapshot's
/// entity order.
pub open spec fn removal_rename_changes(olds: Seq<EntityV>, news: Seq<EntityV>) -> Seq<
    SchemaChangeV,
>
    decreases olds.len(),
{
    if olds.len() == 0 {
        Seq::empty()
    } else {
        entity_entry_changes(olds[0], news) + removal_rename_changes(olds.drop_first(), news)
    }
}

/// Additions, in the new snapshot's entity order.
pub open spec fn addition_changes(olds: Seq<EntityV>, news: Seq<EntityV>) -> Seq<SchemaChangeV>
    decreases news.len(),
{
    if news.len() == 0 {
        Seq::empty()
    } else {
        let rest = addition_changes(olds, news.drop_first());
        if find_entity(olds, news[0].uuid) is None {
            seq![SchemaChangeV::AddEntity(news[0])] + rest
        } else {
            rest
        }
    }
}

/// The complete diff of two snapshots: removals, renames and change records
/// first, additions after.
pub open spec fn spec_diff(old: SchemaV, new: SchemaV) -> Seq<SchemaChangeV> {
    removal_rename_changes(old.entities, new.entities) + addition_changes(
        old.entities,
        new.entities,
    )
}

/// A change that can discard or corrupt stored data.
pub open spec fn field_change_destructive(c: FieldChangeV) -> bool {
    c is RemoveField || c is ChangeType
}

/// A change that can discard or corrupt stored data: an entity or field
/// removal, or a change of a field's base type.
pub open spec fn change_destructive(c: SchemaChangeV) -> bool {
    match c {
        SchemaChangeV::RemoveEntity(_) => true,
        SchemaChangeV::ChangeEntity(_, cs) => exists|i: int|
            0 <= i < cs.len() && field_change_destructive(cs[i]),
        _ => false,
    }
}

/// The first field of the vector carrying the identity token.
pub(crate) fn find_field_ref<'a>(fs: &'a Vec<EntityField>, id: u64) -> (r: Option<
    &'a EntityField,
>)
    ensures
        match r {
            Some(g) => find_field(fs.deep_view(), id) == Some(g.deep_view()),
            None => find_field(fs.deep_view(), id) is None,
        },
{
    let ghost fsv = fs.deep_view();
    proof {
        assert(fsv.skip(0) =~= fsv);
    }
    let mut i: usize = 0;
    while i < fs.len()
        invariant
            0 <= i <= fs.len(),
            fsv == fs.deep_view(),
            fsv.len() == fs.len(),
            find_field(fsv, id) == find_field(fsv.skip(i as int), id),
        decreases fs.len() - i,
    {
        proof {
            assert(fsv.skip(i as int)[0] == fsv[i as int]);
            assert(fsv.skip(i as int).drop_first() =~= fsv.skip(i as int + 1));
        }
        if fs[i].id == id {
            proof {
                assert(find_field(fsv, id) == Some(fsv[i as int]));
            }
            return Some(&fs[i]);
        }
        i = i + 1;
    }
    proof {
        assert(fsv.skip(fsv.len() as int) =~= Seq::<FieldV>::empty());
    }
    None
}

/// The first entity of the vector carrying the identity token.
pub(crate) fn find_entity_ref<'a>(es: &'a Vec<Entity>, u: &String) -> (r: Option<&'a Entity>)
    ensures
        match r {
            Some(e) => find_entity(es.deep_view(), u@) == Some(e.deep_view()),
            None => find_entity(es.deep_view(), u@) is None,
        },
{
    let ghost esv = es.deep_view();
    proof {
        assert(esv.skip(0) =~= esv);
    }
    let mut i: usize = 0;
    while i < es.len()
        invariant
            0 <= i <= es.len(),
            esv == es.deep_view(),
            esv.len() == es.len(),
            find_entity(esv, u@) == find_entity(esv.skip(i as int), u@),
        decreases es.len() - i,
    {
        proof {
            assert(esv.skip(i as int)[0] == esv[i as int]);
            assert(esv.skip(i as int).drop_first() =~= esv.skip(i as int + 1));
        }
        if es[i].uuid == *u {
            proof {
                assert(find_entity(esv, u@) == Some(esv[i as int]));
            }
            return Some(&es[i]);
        }
        i = i + 1;
    }
    proof {
        assert(esv.skip(esv.len() as int) =~= Seq::<EntityV>::empty());
    }
    None
}

/// Whether two string vectors hold the same texts in the same order.
fn eq_string_vec(a: &Vec<String>, b: &Vec<String>) -> (r: bool)
    ensures
        r == (a.deep_view() == b.deep_view()),
{
    if a.len() != b.len() {
        assert(a.deep_view().len() != b.deep_view().len());
        return false;
    }
    let mut i: usize = 0;
    while i < a.len()
        invariant
            0 <= i <= a.len(),
            a.deep_view().len() == a.len(),
            b.deep_view().len() == b.len(),
            a.len() == b.len(),
            forall|k: int| 0 <= k < i ==> a.deep_view()[k] == b.deep_view()[k],
        decreases a.len() - i,
    {
        if a[i] != b[i] {
            assert(a.deep_view()[i as int] != b.deep_view()[i as int]);
            return false;
        }
        assert(a.deep_view()[i as int] == b.deep_view()[i as int]);
        i = i + 1;
    }
    proof {
        assert(a.deep_view() =~= b.deep_view());
    }
    true
}

/// Whether two field types agree up to text rules; see `same_base_type`.
pub(crate) fn eq_base_type(a: &EntityFieldType, b: &EntityFieldType) -> (r: bool)
    ensures
        r == same_base_type(a.deep_view(), b.deep_view()),
{
    match a {
        EntityFieldType::TEXT { min: am, max: ax, .. } => match b {
            EntityFieldType::TEXT { min: bm, max: bx, .. } => *am == *bm && *ax == *bx,
            _ => false,
        },
        EntityFieldType::NUMBER { min: am, max: ax, is_int: ai } => match b {
            EntityFieldType::NUMBER { min: bm, max: bx, is_int: bi } => *am == *bm && *ax == *bx
                && *ai == *bi,
            _ => false,
        },
        EntityFieldType::BOOL => match b {
            EntityFieldType::BOOL => true,
            _ => false,
        },
        EntityFieldType::DATE { min_date: am, max_date: ax } => match b {
            EntityFieldType::DATE { min_date: bm, max_date: bx } => *am == *bm && *ax == *bx,
            _ => false,
        },
        EntityFieldType::RELATION { target: at } => match b {
            EntityFieldType::RELATION { target: bt } => *at == *bt,
            _ => false,
        },
        EntityFieldType::RELATION_MANY { targets: ats } => match b {
            EntityFieldType::RELATION_MANY { targets: bts } => eq_string_vec(ats, bts),
            _ => false,
        },
    }
}

/// The pair changes of two matched fields, as executable data.
fn field_pair_diff(f: &EntityField, g: &EntityField) -> (r: Vec<FieldChange>)
    ensures
        r.deep_view() == field_pair_changes(f.deep_view(), g.deep_view()),
{
    let ghost fv = f.deep_view();
    let ghost gv = g.deep_view();
    let mut out: Vec<FieldChange> = Vec::new();
    if f.name != g.name {
        out.push(FieldChange::Rename(f.id, g.name.clone()));
    }
    let ghost c1 = (if fv.name != gv.name {
        seq![FieldChangeV::Rename(fv.id, gv.name)]
    } else {
        Seq::<FieldChangeV>::empty()
    });
    proof {
        assert(out.deep_view() =~= c1);
    }
    if f.nullable != g.nullable {
        out.push(FieldChange::ChangeNullable(f.id, g.nullable));
    }
    let ghost c2 = (if fv.nullable != gv.nullable {
        seq![FieldChangeV::ChangeNullable(fv.id, gv.nullable)]
    } else {
        Seq::<FieldChangeV>::empty()
    });
    proof {
        assert(out.deep_view() =~= c1 + c2);
    }
    let same = eq_base_type(&f.kind, &g.kind);
    if same {
        match &f.kind {
            EntityFieldType::TEXT { .. } => {
                match &g.kind {
                    EntityFieldType::TEXT { validate: v2, generate: g2, .. } => {
                        let fr = match &f.kind {
                            EntityFieldType::TEXT { validate: v1, generate: g1, .. } => {
                                *v1 != *v2 || *g1 != *g2
                            },
                            _ => false,
                        };
                        if fr {
                            assert(rules_changed(fv.kind, gv.kind));
                            out.push(FieldChange::ChangeRule(f.id, v2.clone(), g2.clone()));
                        } else {
                            assert(!rules_changed(fv.kind, gv.kind));
                        }
                    },
                    _ => {
                        proof {
                            assert(false);
                        }
                    },
                }
            },
            _ => {
                assert(!rules_changed(fv.kind, gv.kind));
            },
        }
    }
    let ghost c3 = (if same_base_type(fv.kind, gv.kind) && rules_changed(fv.kind, gv.kind) {
        seq![
            FieldChangeV::ChangeRule(fv.id, text_validate(gv.kind), text_generate(gv.kind)),
        ]
    } else {
        Seq::<FieldChangeV>::empty()
    });
    proof {
        assert(out.deep_view() =~= c1 + c2 + c3);
    }
    if !same {
        out.push(FieldChange::ChangeType(f.id, clone_field_type(&g.kind)));
    }
    let ghost c4 = (if !same_base_type(fv.kind, gv.kind) {
        seq![FieldChangeV::ChangeType(fv.id, gv.kind)]
    } else {
        Seq::<FieldChangeV>::empty()
    });
    proof {
        assert(out.deep_view() =~= c1 + c2 + c3 + c4);
        assert(field_pair_changes(fv, gv) == c1 + c2 + c3 + c4);
    }
    out
}

/// Whether two derived-view lists are equal, entry for entry.
pub(crate) fn eq_dto_lists(a: &Vec<DTO>, b: &Vec<DTO>) -> (r: bool)
    ensures
        r == (a.deep_view() == b.deep_view()),
{
    if a.len() != b.len() {
        assert(a.deep_view().len() != b.deep_view().len());
        return false;
    }
    let mut i: usize = 0;
    while i < a.len()
        invariant
            0 <= i <= a.len(),
            a.deep_view().len() == a.len(),
            b.deep_view().len() == b.len(),
            a.len() == b.len(),
            forall|k: int| 0 <= k < i ==> a.deep_view()[k] == b.deep_view()[k],
        decreases a.len() - i,
    {
        if !eq_dto(&a[i], &b[i]) {
            assert(a.deep_view()[i as int] != b.deep_view()[i as int]);
            return false;
        }
        assert(a.deep_view()[i as int] == b.deep_view()[i as int]);
        i = i + 1;
    }
    proof {
        assert(a.deep_view() =~= b.deep_view());
    }
    true
}

/// Whether two derived views have the same name and the same entries.
fn eq_dto(a: &DTO, b: &DTO) -> (r: bool)
    ensures
        r == (a.deep_view() == b.deep_view()),
{
    let ghost av = a.deep_view();
    let ghost bv = b.deep_view();
    if a.name != b.name {
        return false;
    }
    if a.data.len() != b.data.len() {
        assert(av.data.len() != bv.data.len());
        return false;
    }
    let mut i: usize = 0;
    while i < a.data.len()
        invariant
            0 <= i <= a.data.len(),
            av == a.deep_view(),
            bv == b.deep_view(),
            av.data.len() == a.data.len(),
            bv.data.len() == b.data.len(),
            a.data.len() == b.data.len(),
            av.name == bv.name,
            forall|k: int| 0 <= k < i ==> av.data[k] == bv.data[k],
        decreases a.data.len() - i,
    {
        let ea = &a.data[i];
        let eb = &b.data[i];
        if ea.0 != eb.0 {
            assert(av.data[i as int].name != bv.data[i as int].name);
            return false;
        }
        let value_eq = match (&ea.1, &eb.1) {
            (DTOField::STATIC, DTOField::STATIC) => true,
            (DTOField::VALUE(x), DTOField::VALUE(y)) => *x == *y,
            _ => false,
        };
        if !value_eq {
            assert(av.data[i as int].value != bv.data[i as int].value);
            return false;
        }
        assert(av.data[i as int] == bv.data[i as int]);
        i = i + 1;
    }
    proof {
        assert(av.data =~= bv.data);
        assert(av =~= bv);
    }
    true
}

/// The field-level diff of two matched entities, as executable data.
fn entity_field_diff(olde: &Entity, newe: &Entity) -> (r: Vec<FieldChange>)
    ensures
        r.deep_view() == entity_changes(olde.deep_view(), newe.deep_view()),
{
    let ghost ov = olde.deep_view();
    let ghost nv = newe.deep_view();
    let mut out: Vec<FieldChange> = Vec::new();
    let ghost oldf = ov.fields;
    let ghost newf = nv.fields;
    proof {
        assert(oldf.skip(0) =~= oldf);
        assert(out.deep_view() =~= Seq::<FieldChangeV>::empty());
        assert(Seq::<FieldChangeV>::empty() + matched_field_changes(oldf, newf)
            =~= matched_field_changes(oldf, newf));
    }
    let mut i: usize = 0;
    while i < olde.fields.len()
        invariant
            0 <= i <= olde.fields.len(),
            ov == olde.deep_view(),
            nv == newe.deep_view(),
            oldf == ov.fields,
            newf == nv.fields,
            oldf.len() == olde.fields.len(),
            newf.len() == newe.fields.len(),
            matched_field_changes(oldf, newf) == out.deep_view() + matched_field_changes(
                oldf.skip(i as int),
                newf,
            ),
        decreases olde.fields.len() - i,
    {
        let ghost pre = out.deep_view();
        proof {
            assert(oldf.skip(i as int)[0] == oldf[i as int]);
            assert(oldf.skip(i as int).drop_first() =~= oldf.skip(i as int + 1));
        }
        let f = &olde.fields[i];
        if !f.base {
            match find_field_ref(&newe.fields, f.id) {
                None => {
                    out.push(FieldChange::RemoveField(f.id));
                    proof {
                        assert(out.deep_view() =~= pre + seq![
                            FieldChangeV::RemoveField(oldf[i as int].id),
                        ]);
                        assert(matched_field_changes(oldf.skip(i as int), newf) == seq![
                            FieldChangeV::RemoveField(oldf[i as int].id),
                        ] + matched_field_changes(oldf.skip(i as int + 1), newf));
                        assert(pre + (seq![FieldChangeV::RemoveField(oldf[i as int].id)]
                            + matched_field_changes(oldf.skip(i as int + 1), newf)) =~= (pre
                            + seq![FieldChangeV::RemoveField(oldf[i as int].id)])
                            + matched_field_changes(oldf.skip(i as int + 1), newf));
                    }
                },
                Some(g) => {
                    let mut pair = field_pair_diff(f, g);
                    let ghost pairv = pair.deep_view();
                    out.append(&mut pair);
                    proof {
                        assert(out.deep_view() =~= pre + pairv);
                        assert(matched_field_changes(oldf.skip(i as int), newf) == pairv
                            + matched_field_changes(oldf.skip(i as int + 1), newf));
                        assert(pre + (pairv + matched_field_changes(
                            oldf.skip(i as int + 1),
                            newf,
                        )) =~= (pre + pairv) + matched_field_changes(
                            oldf.skip(i as int + 1),
                            newf,
                        ));
                    }
                },
            }
        }
        i = i + 1;
    }
    proof {
        assert(oldf.skip(oldf.len() as int) =~= Seq::<FieldV>::empty());
        assert(out.deep_view() + Seq::<FieldChangeV>::empty() =~= out.deep_view());
        assert(out.deep_view() == matched_field_changes(oldf, newf));
    }
    let ghost m = matched_field_changes(oldf, newf);
    proof {
        assert(newf.skip(0) =~= newf);
        assert(m + added_field_changes(oldf, newf) =~= out.deep_view() + added_field_changes(
            oldf,
            newf.skip(0),
        ));
    }
    let mut j: usize = 0;
    while j < newe.fields.len()
        invariant
            0 <= j <= newe.fields.len(),
            ov == olde.deep_view(),
            nv == newe.deep_view(),
            oldf == ov.fields,
            newf == nv.fields,
            oldf.len() == olde.fields.len(),
            newf.len() == newe.fields.len(),
            m == matched_field_changes(oldf, newf),
            m + added_field_changes(oldf, newf) == out.deep_view() + added_field_changes(
                oldf,
                newf.skip(j as int),
            ),
        decreases newe.fields.len() - j,
    {
        let ghost pre = out.deep_view();
        proof {
            assert(newf.skip(j as int)[0] == newf[j as int]);
            assert(newf.skip(j as int).drop_first() =~= newf.skip(j as int + 1));
        }
        let g = &newe.fields[j];
        if !g.base {
            match find_field_ref(&olde.fields, g.id) {
                None => {
                    out.push(FieldChange::AddField(crate::schema::clone_field(g)));
                    proof {
                        assert(out.deep_view() =~= pre + seq![
                            FieldChangeV::AddField(newf[j as int]),
                        ]);
                        assert(added_field_changes(oldf, newf.skip(j as int)) == seq![
                            FieldChangeV::AddField(newf[j as int]),
                        ] + added_field_changes(oldf, newf.skip(j as int + 1)));
                        assert(pre + (seq![FieldChangeV::AddField(newf[j as int])]
                            + added_field_changes(oldf, newf.skip(j as int + 1))) =~= (pre
                            + seq![FieldChangeV::AddField(newf[j as int])]) + added_field_changes(
                            oldf,
                            newf.skip(j as int + 1),
                        ));
                    }
                },
                Some(_) => {},
            }
        }
        j = j + 1;
    }
    proof {
        assert(newf.skip(newf.len() as int) =~= Seq::<FieldV>::empty());
        assert(out.deep_view() + Seq::<FieldChangeV>::empty() =~= out.deep_view());
        assert(out.deep_view() == m + added_field_changes(oldf, newf));
    }
    let ghost before_dto = out.deep_view();
    if !eq_dto_lists(olde.get_dtos(), newe.get_dtos()) {
        out.push(FieldChange::ChangeDTO(clone_dtos(newe.get_dtos())));
        proof {
            assert(out.deep_view() =~= before_dto + seq![FieldChangeV::ChangeDTO(nv.dtos)]);
        }
    } else {
        proof {
            assert(out.deep_view() + Seq::<FieldChangeV>::empty() =~= out.deep_view());
        }
    }
    proof {
        assert(out.deep_view() =~= entity_changes(ov, nv));
    }
    out
}

/// Whether a vector of entities holds two entities with one identity token.
fn has_duplicate_uuid(entities: &Vec<Entity>) -> (r: bool)
    ensures
        r == !crate::schema::unique_uuids(entities.deep_view()),
{
    let ghost es = entities.deep_view();
    let mut i: usize = 0;
    while i < entities.len()
        invariant
            0 <= i <= entities.len(),
            es == entities.deep_view(),
            es.len() == entities.len(),
            forall|a: int, b: int| 0 <= a < b < i ==> es[a].uuid != es[b].uuid,
        decreases entities.len() - i,
    {
        let mut j: usize = 0;
        while j < i
            invariant
                0 <= j <= i < entities.len(),
                es == entities.deep_view(),
                es.len() == entities.len(),
                forall|b: int| 0 <= b < j ==> es[b].uuid != es[i as int].uuid,
            decreases i - j,
        {
            if entities[j].uuid == entities[i].uuid {
                assert(es[j as int].uuid == es[i as int].uuid);
                assert(!crate::schema::unique_uuids(es));
                return true;
            }
            j = j + 1;
        }
        i = i + 1;
    }
    assert(crate::schema::unique_uuids(es));
    false
}

/// Computes the structural diff of two schema snapshots.
pub struct SchemaComparator {}

impl SchemaComparator {
    pub fn new(&self) -> (r: SchemaComparator)
        ensures
            r == (SchemaComparator {  }),
    {
        SchemaComparator {  }
    }

    /// The ordered list of structural changes that turns `source` into
    /// `new`. Fails when the new snapshot's version does not strictly
    /// advance the old one, or when either snapshot holds two entities with
    /// one identity token; otherwise the result is exactly the diff, with
    /// removals, renames and per-entity change records in the old snapshot's
    /// entity order, followed by additions in the new snapshot's order.
    pub fn compare(&self, source: &Schema, new: &Schema) -> (r: Result<
        Vec<SchemaChange>,
        CompareError,
    >)
        ensures
            ({
                let ov = source.deep_view();
                let nv = new.deep_view();
                if !ov.version.spec_lt(nv.version) {
                    r == Err::<Vec<SchemaChange>, CompareError>(CompareError::VersionNotAdvanced)
                } else if !crate::schema::unique_uuids(ov.entities)
                    || !crate::schema::unique_uuids(nv.entities) {
                    r == Err::<Vec<SchemaChange>, CompareError>(CompareError::DuplicateIdentity)
                } else {
                    r matches Ok(cs) && cs.deep_view() == spec_diff(ov, nv)
                }
            }),
    {
        let ghost ov = source.deep_view();
        let ghost nv = new.deep_view();
        if !source.version.precedes(&new.version) {
            return Err(CompareError::VersionNotAdvanced);
        }
        if has_duplicate_uuid(&source.entities) || has_duplicate_uuid(&new.entities) {
            return Err(CompareError::DuplicateIdentity);
        }
        let mut changes: Vec<SchemaChange> = Vec::new();
        let ghost olds = ov.entities;
        let ghost news = nv.entities;
        proof {
            assert(olds.skip(0) =~= olds);
            assert(changes.deep_view() =~= Seq::<SchemaChangeV>::empty());
            assert(Seq::<SchemaChangeV>::empty() + removal_rename_changes(olds, news)
                =~= removal_rename_changes(olds, news));
        }
        let mut i: usize = 0;
        while i < source.entities.len()
            invariant
                0 <= i <= source.entities.len(),
                ov == source.deep_view(),
                nv == new.deep_view(),
                olds == ov.entities,
                news == nv.entities,
                olds.len() == source.entities.len(),
                news.len() == new.entities.len(),
                removal_rename_changes(olds, news) == changes.deep_view()
                    + removal_rename_changes(olds.skip(i as int), news),
            decreases source.entities.len() - i,
        {
            let ghost pre = changes.deep_view();
            proof {
                assert(olds.skip(i as int)[0] == olds[i as int]);
                assert(olds.skip(i as int).drop_first() =~= olds.skip(i as int + 1));
            }
            let e = &source.entities[i];
            let ghost entry = entity_entry_changes(olds[i as int], news);
            match find_entity_ref(&new.entities, &e.uuid) {
                None => {
                    changes.push(SchemaChange::RemoveEntity(e.uuid.clone()));
                    proof {
                        assert(entry =~= seq![SchemaChangeV::RemoveEntity(olds[i as int].uuid)]);
                        assert(changes.deep_view() =~= pre + entry);
                    }
                },
                Some(n) => {
                    let ghost r1 = (if olds[i as int].name != n.deep_view().name {
                        seq![
                            SchemaChangeV::RenameEntity(olds[i as int].uuid, n.deep_view().name),
                        ]
                    } else {
                        Seq::<SchemaChangeV>::empty()
                    });
                    if e.name != n.name {
                        changes.push(
                            SchemaChange::RenameEntity(e.uuid.clone(), n.name.clone()),
                        );
                    }
                    proof {
                        assert(changes.deep_view() =~= pre + r1);
                    }
                    let fc = entity_field_diff(e, n);
                    let ghost ec = entity_changes(olds[i as int], n.deep_view());
                    if fc.len() > 0 {
                        changes.push(SchemaChange::ChangeEntity(e.uuid.clone(), fc));
                        proof {
                            assert(changes.deep_view() =~= pre + r1 + seq![
                                SchemaChangeV::ChangeEntity(olds[i as int].uuid, ec),
                            ]);
                            assert(entry =~= r1 + seq![
                                SchemaChangeV::ChangeEntity(olds[i as int].uuid, ec),
                            ]);
                            assert(changes.deep_view() =~= pre + entry);
                        }
                    } else {
                        proof {
                            assert(ec.len() == 0);
                            assert(entry =~= r1 + Seq::<SchemaChangeV>::empty());
                            assert(entry =~= r1);
                            assert(changes.deep_view() =~= pre + entry);
                        }
                    }
                },
            }
            proof {
                assert(removal_rename_changes(olds.skip(i as int), news) == entry
                    + removal_rename_changes(olds.skip(i as int + 1), news));
                assert(pre + (entry + removal_rename_changes(olds.skip(i as int + 1), news))
                    =~= (pre + entry) + removal_rename_changes(olds.skip(i as int + 1), news));
            }
            i = i + 1;
        }
        proof {
            assert(olds.skip(olds.len() as int) =~= Seq::<EntityV>::empty());
            assert(changes.deep_view() + Seq::<SchemaChangeV>::empty() =~= changes.deep_view());
            assert(changes.deep_view() == removal_rename_changes(olds, news));
        }
        let ghost rr = removal_rename_changes(olds, news);
        proof {
            assert(news.skip(0) =~= news);
            assert(rr + addition_changes(olds, news) =~= changes.deep_view() + addition_changes(
                olds,
                news.skip(0),
            ));
        }
        let mut j: usize = 0;
        while j < new.entities.len()
            invariant
                0 <= j <= new.entities.len(),
                ov == source.deep_view(),
                nv == new.deep_view(),
                olds == ov.entities,
                news == nv.entities,
                olds.len() == source.entities.len(),
                news.len() == new.entities.len(),
                rr == removal_rename_changes(olds, news),
                rr + addition_changes(olds, news) == changes.deep_view() + addition_changes(
                    olds,
                    news.skip(j as int),
                ),
            decreases new.entities.len() - j,
        {
            let ghost pre = changes.deep_view();
            proof {
                assert(news.skip(j as int)[0] == news[j as int]);
                assert(news.skip(j as int).drop_first() =~= news.skip(j as int + 1));
            }
            let n = &new.entities[j];
            match find_entity_ref(&source.entities, &n.uuid) {
                None => {
                    changes.push(SchemaChange::AddEntity(clone_entity(n)));
                    proof {
                        assert(changes.deep_view() =~= pre + seq![
                            SchemaChangeV::AddEntity(news[j as int]),
                        ]);
                        assert(addition_changes(olds, news.skip(j as int)) == seq![
                            SchemaChangeV::AddEntity(news[j as int]),
                        ] + addition_changes(olds, news.skip(j as int + 1)));
                        assert(pre + (seq![SchemaChangeV::AddEntity(news[j as int])]
                            + addition_changes(olds, news.skip(j as int + 1))) =~= (pre + seq![
                            SchemaChangeV::AddEntity(news[j as int]),
                        ]) + addition_changes(olds, news.skip(j as int + 1)));
                    }
                },
                Some(_) => {},
            }
            j = j + 1;
        }
        proof {
            assert(news.skip(news.len() as int) =~= Seq::<EntityV>::empty());
            assert(changes.deep_view() + Seq::<SchemaChangeV>::empty() =~= changes.deep_view());
            assert(changes.deep_view() == rr + addition_changes(olds, news));
        }
        Ok(changes)
    }
}

} // verus!
