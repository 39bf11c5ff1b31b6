use vstd::prelude::*;

use crate::migrator::{
    find_entity, find_field, FieldChange, FieldChangeV, SchemaChange, SchemaChangeV,
};
use crate::schema::{
    clone_dtos, clone_entity, clone_field, contains_uuid, has_entity_uuid, Entity, EntityField,
    EntityFieldType, EntityV, FieldTypeV, FieldV, Version,
};

verus! {

/// Why a migration was aborted: a destructive change arrived without the
/// caller's explicit consent, or the store rejected the change at the given
/// position; either way the store is untouched.
#[derive(Clone, Copy, PartialEq, Eq, Structural, Debug)]
pub enum MigrateError {
    DestructiveChangeRejected,
    ApplyFailed(usize),
}

/// One row of the migration history: the version reached and the changes
/// that were applied to reach it.
pub struct MigrationRecord {
    pub version: Version,
    pub changes: Vec<SchemaChange>,
}

/// Mathematical model of a history row.
#[verifier::ext_equal]
pub struct RecordV {
    pub version: Version,
    pub changes: Seq<SchemaChangeV>,
}

impl View for MigrationRecord {
    type V = RecordV;

    open spec fn view(&self) -> RecordV {
        RecordV { version: self.version, changes: self.changes.deep_view() }
    }
}

impl DeepView for MigrationRecord {
    type V = RecordV;

    open spec fn deep_view(&self) -> RecordV {
        self.view()
    }
}

/// An in-memory backing store: the live entity structure plus the migration
/// history, mutated only through `migrate`.
pub struct MemoryStore {
    pub entities: Vec<Entity>,
    pub history: Vec<MigrationRecord>,
}

/// Mathematical model of the store.
#[verifier::ext_equal]
pub struct MemoryStoreV {
    pub entities: Seq<EntityV>,
    pub history: Seq<RecordV>,
}

impl View for MemoryStore {
    type V = MemoryStoreV;

    open spec fn view(&self) -> MemoryStoreV {
        MemoryStoreV { entities: self.entities.deep_view(), history: self.history.deep_view() }
    }
}

impl DeepView for MemoryStore {
    type V = MemoryStoreV;

    open spec fn deep_view(&self) -> MemoryStoreV {
        self.view()
    }
}

/// The sequence without any entity carrying the identity token.
pub open spec fn without_entity(es: Seq<EntityV>, u: Seq<char>) -> Seq<EntityV>
    decreases es.len(),
{
    if es.len() == 0 {
        Seq::empty()
    } else if es[0].uuid == u {
        without_entity(es.drop_first(), u)
    } else {
        seq![es[0]] + without_entity(es.drop_first(), u)
    }
}

/// The sequence without any field carrying the identity token.
pub open spec fn without_field(fs: Seq<FieldV>, id: u64) -> Seq<FieldV>
    decreases fs.len(),
{
    if fs.len() == 0 {
        Seq::empty()
    } else if fs[0].id == id {
        without_field(fs.drop_first(), id)
    } else {
        seq![fs[0]] + without_field(fs.drop_first(), id)
    }
}

/// One field-level change applied to one entity; `None` when the store must
/// reject it: the field is missing or is an immutable base field, a text
/// rule lands on a non-text field, an added field collides by identity
/// token or name, or an added field claims a primary key.
pub open spec fn apply_field_change(e: EntityV, c: FieldChangeV) -> Option<EntityV> {
    match c {
        FieldChangeV::ChangeNullable(id, n) => match find_field(e.fields, id) {
            None => None,
            Some(f0) => if f0.base {
                None
            } else {
                Some(
                    EntityV {
                        fields: e.fields.map_values(
                            |f: FieldV|
                                if f.id == id {
                                    FieldV { nullable: n, ..f }
                                } else {
                                    f
                                },
                        ),
                        ..e
                    },
                )
            },
        },
        FieldChangeV::Rename(id, n) => match find_field(e.fields, id) {
            None => None,
            Some(f0) => if f0.base {
                None
            } else {
                Some(
                    EntityV {
                        fields: e.fields.map_values(
                            |f: FieldV|
                                if f.id == id {
                                    FieldV { name: n, ..f }
                                } else {
                                    f
                                },
                        ),
                        ..e
                    },
                )
            },
        },
        FieldChangeV::ChangeRule(id, v, g) => match find_field(e.fields, id) {
            None => None,
            Some(f0) => if f0.base || !(f0.kind is TEXT) {
                None
            } else {
                Some(
                    EntityV {
                        fields: e.fields.map_values(
                            |f: FieldV|
                                if f.id == id && f.kind is TEXT {
                                    FieldV { kind: with_text_rules(f.kind, v, g), ..f }
                                } else {
                                    f
                                },
                        ),
                        ..e
                    },
                )
            },
        },
        FieldChangeV::ChangeDTO(ds) => Some(EntityV { dtos: ds, ..e }),
        FieldChangeV::AddField(f) => if find_field(e.fields, f.id) is Some || (exists|i: int|
            0 <= i < e.fields.len() && e.fields[i].name == f.name) || f.primary_key {
            None
        } else {
            Some(EntityV { fields: e.fields.push(f), ..e })
        },
        FieldChangeV::RemoveField(id) => match find_field(e.fields, id) {
            None => None,
            Some(f0) => if f0.base {
                None
            } else {
                Some(EntityV { fields: without_field(e.fields, id), ..e })
            },
        },
        FieldChangeV::ChangeType(id, k) => match find_field(e.fields, id) {
            None => None,
            Some(f0) => if f0.base {
                None
            } else {
                Some(
                    EntityV {
                        fields: e.fields.map_values(
                            |f: FieldV|
                                if f.id == id {
                                    FieldV { kind: k, ..f }
                                } else {
                                    f
                                },
                        ),
                        ..e
                    },
                )
            },
        },
    }
}

/// A text type with its validation and generation patterns replaced.
pub open spec fn with_text_rules(k: FieldTypeV, v: Seq<char>, g: Seq<char>) -> FieldTypeV {
    match k {
        FieldTypeV::TEXT { min, max, .. } => FieldTypeV::TEXT {
            min,
            max,
            validate: v,
            generate: g,
        },
        _ => k,
    }
}

/// A batch of field-level changes folded over one entity.
pub open spec fn apply_field_changes(e: EntityV, cs: Seq<FieldChangeV>) -> Option<EntityV>
    decreases cs.len(),
{
    if cs.len() == 0 {
        Some(e)
    } else {
        match apply_field_change(e, cs[0]) {
            None => None,
            Some(e2) => apply_field_changes(e2, cs.drop_first()),
        }
    }
}

/// One schema change applied to the store's entities; `None` when the store
/// must reject it: an added entity's identity token is taken, or the changed
/// or removed entity is unknown.
pub open spec fn apply_change(es: Seq<EntityV>, c: SchemaChangeV) -> Option<Seq<EntityV>> {
    match c {
        SchemaChangeV::AddEntity(e) => if has_entity_uuid(es, e.uuid) {
            None
        } else {
            Some(es.push(e))
        },
        SchemaChangeV::RemoveEntity(u) => if !has_entity_uuid(es, u) {
            None
        } else {
            Some(without_entity(es, u))
        },
        SchemaChangeV::RenameEntity(u, n) => if !has_entity_uuid(es, u) {
            None
        } else {
            Some(
                es.map_values(
                    |e: EntityV|
                        if e.uuid == u {
                            EntityV { name: n, ..e }
                        } else {
                            e
                        },
                ),
            )
        },
        SchemaChangeV::ChangeEntity(u, cs) => match find_entity(es, u) {
            None => None,
            Some(e0) => match apply_field_changes(e0, cs) {
                None => None,
                Some(e1) => Some(
                    es.map_values(
                        |e: EntityV|
                            if e.uuid == u {
                                e1
                            } else {
                                e
                            },
                    ),
                ),
            },
        },
    }
}

/// An ordered change list folded over the store's entities.
pub open spec fn apply_all(es: Seq<EntityV>, cs: Seq<SchemaChangeV>) -> Option<Seq<EntityV>>
    decreases cs.len(),
{
    if cs.len() == 0 {
        Some(es)
    } else {
        match apply_change(es, cs[0]) {
            None => None,
            Some(es2) => apply_all(es2, cs.drop_first()),
        }
    }
}

/// Folding one more change equals folding the prefix and applying the last
/// change to its result.
pub proof fn lemma_apply_all_snoc(es: Seq<EntityV>, cs: Seq<SchemaChangeV>, c: SchemaChangeV)
    ensures
        apply_all(es, cs.push(c)) == (match apply_all(es, cs) {
            Some(mid) => apply_change(mid, c),
            None => None::<Seq<EntityV>>,
        }),
    decreases cs.len(),
{
    let s1 = cs.push(c);
    if cs.len() == 0 {
        assert(s1.len() == 1);
        assert(s1[0] == c);
        assert(s1.drop_first() =~= Seq::<SchemaChangeV>::empty());
        assert(apply_all(es, cs) == Some(es));
        match apply_change(es, c) {
            None => {
                assert(apply_all(es, s1) is None);
            },
            Some(es2) => {
                assert(apply_all(es2, s1.drop_first()) == Some(es2));
                assert(apply_all(es, s1) == Some(es2));
            },
        }
    } else {
        assert(s1[0] == cs[0]);
        assert(s1.drop_first() =~= cs.drop_first().push(c));
        match apply_change(es, cs[0]) {
            None => {
                assert(apply_all(es, s1) is None);
                assert(apply_all(es, cs) is None);
            },
            Some(es2) => {
                assert(apply_all(es, s1) == apply_all(es2, cs.drop_first().push(c)));
                assert(apply_all(es, cs) == apply_all(es2, cs.drop_first()));
                lemma_apply_all_snoc(es2, cs.drop_first(), c);
            },
        }
    }
}

/// Whether some change of the list can discard or corrupt stored data.
pub open spec fn has_destructive(cs: Seq<SchemaChangeV>) -> bool {
    exists|i: int| 0 <= i < cs.len() && crate::migrator::change_destructive(cs[i])
}

/// Whether a field-level change list holds a removal or a type change.
fn any_field_change_destructive(cs: &Vec<FieldChange>) -> (r: bool)
    ensures
        r == exists|i: int|
            0 <= i < cs.deep_view().len() && crate::migrator::field_change_destructive(
                cs.deep_view()[i],
            ),
{
    let ghost csv = cs.deep_view();
    let mut i: usize = 0;
    while i < cs.len()
        invariant
            0 <= i <= cs.len(),
            csv == cs.deep_view(),
            csv.len() == cs.len(),
            forall|k: int| 0 <= k < i ==> !crate::migrator::field_change_destructive(csv[k]),
        decreases cs.len() - i,
    {
        let hit = match &cs[i] {
            FieldChange::RemoveField(_) => true,
            FieldChange::ChangeType(_, _) => true,
            _ => false,
        };
        if hit {
            assert(crate::migrator::field_change_destructive(csv[i as int]));
            return true;
        }
        i = i + 1;
    }
    false
}

/// Whether the change list holds a destructive change.
pub fn changes_destructive(cs: &Vec<SchemaChange>) -> (r: bool)
    ensures
        r == has_destructive(cs.deep_view()),
{
    let ghost csv = cs.deep_view();
    let mut i: usize = 0;
    while i < cs.len()
        invariant
            0 <= i <= cs.len(),
            csv == cs.deep_view(),
            csv.len() == cs.len(),
            forall|k: int| 0 <= k < i ==> !crate::migrator::change_destructive(csv[k]),
        decreases cs.len() - i,
    {
        match &cs[i] {
            SchemaChange::RemoveEntity(_) => {
                assert(crate::migrator::change_destructive(csv[i as int]));
                return true;
            },
            SchemaChange::ChangeEntity(_, fcs) => {
                if any_field_change_destructive(fcs) {
                    proof {
                        assert(csv[i as int] matches SchemaChangeV::ChangeEntity(_, w)
                            && w == fcs.deep_view());
                        assert(crate::migrator::change_destructive(csv[i as int]));
                    }
                    return true;
                }
                assert(!crate::migrator::change_destructive(csv[i as int]));
            },
            _ => {
                assert(!crate::migrator::change_destructive(csv[i as int]));
            },
        }
        i = i + 1;
    }
    false
}

/// The index of the first field carrying the identity token.
fn find_field_pos(fs: &Vec<EntityField>, id: u64) -> (r: Option<usize>)
    ensures
        match r {
            Some(i) => 0 <= i < fs.deep_view().len() && fs.deep_view()[i as int].id == id
                && find_field(fs.deep_view(), id) == Some(fs.deep_view()[i as int]),
            None => find_field(fs.deep_view(), id) is None,
        },
{
    let ghost fsv = fs.deep_view();
    proof {
        assert(fsv.skip(0) =~= fsv);
    }
    let mut i: usize = 0;
    while i < fs.len()
        invariant
            0 <= i <= fs.len(),
            fsv == fs.deep_view(),
            fsv.len() == fs.len(),
            find_field(fsv, id) == find_field(fsv.skip(i as int), id),
        decreases fs.len() - i,
    {
        proof {
            assert(fsv.skip(i as int)[0] == fsv[i as int]);
            assert(fsv.skip(i as int).drop_first() =~= fsv.skip(i as int + 1));
        }
        if fs[i].id == id {
            proof {
                assert(find_field(fsv, id) == Some(fsv[i as int]));
            }
            return Some(i);
        }
        i = i + 1;
    }
    proof {
        assert(fsv.skip(fsv.len() as int) =~= Seq::<FieldV>::empty());
    }
    None
}

/// Rebuilds an entity's field list with the identified field transformed;
/// the shape of every store-side field update.
fn map_fields(fs: &Vec<EntityField>, c: &FieldChange) -> (r: Vec<EntityField>)
    requires
        c matches FieldChange::ChangeNullable(_, _) || c matches FieldChange::Rename(_, _) || (
        c matches FieldChange::ChangeRule(_, _, _)) || c matches FieldChange::ChangeType(_, _),
    ensures
        ({
            let fsv = fs.deep_view();
            match c.deep_view() {
                FieldChangeV::ChangeNullable(id, n) => r.deep_view() == fsv.map_values(
                    |f: FieldV|
                        if f.id == id {
                            FieldV { nullable: n, ..f }
                        } else {
                            f
                        },
                ),
                FieldChangeV::Rename(id, n) => r.deep_view() == fsv.map_values(
                    |f: FieldV|
                        if f.id == id {
                            FieldV { name: n, ..f }
                        } else {
                            f
                        },
                ),
                FieldChangeV::ChangeRule(id, v, g) => r.deep_view() == fsv.map_values(
                    |f: FieldV|
                        if f.id == id && f.kind is TEXT {
                            FieldV { kind: with_text_rules(f.kind, v, g), ..f }
                        } else {
                            f
                        },
                ),
                FieldChangeV::ChangeType(id, k) => r.deep_view() == fsv.map_values(
                    |f: FieldV|
                        if f.id == id {
                            FieldV { kind: k, ..f }
                        } else {
                            f
                        },
                ),
                _ => true,
            }
        }),
{
    let ghost fsv = fs.deep_view();
    let mut out: Vec<EntityField> = Vec::new();
    let mut i: usize = 0;
    while i < fs.len()
        invariant
            0 <= i <= fs.len(),
            fsv == fs.deep_view(),
            fsv.len() == fs.len(),
            c matches FieldChange::ChangeNullable(_, _) || c matches FieldChange::Rename(_, _)
                || (c matches FieldChange::ChangeRule(_, _, _)) || (
            c matches FieldChange::ChangeType(_, _)),
            out.deep_view().len() == i,
            forall|k: int|
                0 <= k < i ==> out.deep_view()[k] == mapped_field(fsv[k], c.deep_view()),
        decreases fs.len() - i,
    {
        let f = &fs[i];
        let hit = match c {
            FieldChange::ChangeNullable(id, _) => f.id == *id,
            FieldChange::Rename(id, _) => f.id == *id,
            FieldChange::ChangeRule(id, _, _) => f.id == *id,
            FieldChange::ChangeType(id, _) => f.id == *id,
            _ => false,
        };
        if hit {
            let mut g = clone_field(f);
            match c {
                FieldChange::ChangeNullable(_, n) => {
                    g.nullable = *n;
                },
                FieldChange::Rename(_, n) => {
                    g.name = n.clone();
                },
                FieldChange::ChangeRule(_, v, gen) => {
                    match &f.kind {
                        EntityFieldType::TEXT { min, max, .. } => {
                            g.kind = EntityFieldType::TEXT {
                                min: *min,
                                max: *max,
                                validate: v.clone(),
                                generate: gen.clone(),
                            };
                        },
                        _ => {},
                    }
                },
                FieldChange::ChangeType(_, k) => {
                    g.kind = crate::schema::clone_field_type(k);
                },
                _ => {},
            }
            proof {
                assert(g.deep_view() == mapped_field(fsv[i as int], c.deep_view()));
            }
            let ghost preout = out.deep_view();
            out.push(g);
            proof {
                assert forall|k: int|
                    0 <= k < i + 1 implies out.deep_view()[k] == mapped_field(
                    fsv[k],
                    c.deep_view(),
                ) by {
                    if k < i {
                        assert(preout[k] == mapped_field(fsv[k], c.deep_view()));
                        assert(out.deep_view()[k] == preout[k]);
                    } else {
                        assert(out.deep_view()[k] == g.deep_view());
                    }
                }
            }
        } else {
            let g = clone_field(f);
            proof {
                assert(g.deep_view() == mapped_field(fsv[i as int], c.deep_view()));
            }
            let ghost preout = out.deep_view();
            out.push(g);
            proof {
                assert forall|k: int|
                    0 <= k < i + 1 implies out.deep_view()[k] == mapped_field(
                    fsv[k],
                    c.deep_view(),
                ) by {
                    if k < i {
                        assert(preout[k] == mapped_field(fsv[k], c.deep_view()));
                        assert(out.deep_view()[k] == preout[k]);
                    } else {
                        assert(out.deep_view()[k] == g.deep_view());
                    }
                }
            }
        }
        i = i + 1;
    }
    proof {
        match c.deep_view() {
            FieldChangeV::ChangeNullable(id, n) => {
                assert(out.deep_view() =~= fsv.map_values(
                    |f: FieldV|
                        if f.id == id {
                            FieldV { nullable: n, ..f }
                        } else {
                            f
                        },
                ));
            },
            FieldChangeV::Rename(id, n) => {
                assert(out.deep_view() =~= fsv.map_values(
                    |f: FieldV|
                        if f.id == id {
                            FieldV { name: n, ..f }
                        } else {
                            f
                        },
                ));
            },
            FieldChangeV::ChangeRule(id, v, g) => {
                assert(out.deep_view() =~= fsv.map_values(
                    |f: FieldV|
                        if f.id == id && f.kind is TEXT {
                            FieldV { kind: with_text_rules(f.kind, v, g), ..f }
                        } else {
                            f
                        },
                ));
            },
            FieldChangeV::ChangeType(id, k) => {
                assert(out.deep_view() =~= fsv.map_values(
                    |f: FieldV|
                        if f.id == id {
                            FieldV { kind: k, ..f }
                        } else {
                            f
                        },
                ));
            },
            _ => {},
        }
    }
    out
}

/// What one store-side field update does to one field.
pub open spec fn mapped_field(f: FieldV, c: FieldChangeV) -> FieldV {
    match c {
        FieldChangeV::ChangeNullable(id, n) => if f.id == id {
            FieldV { nullable: n, ..f }
        } else {
            f
        },
        FieldChangeV::Rename(id, n) => if f.id == id {
            FieldV { name: n, ..f }
        } else {
            f
        },
        FieldChangeV::ChangeRule(id, v, g) => if f.id == id && f.kind is TEXT {
            FieldV { kind: with_text_rules(f.kind, v, g), ..f }
        } else {
            f
        },
        FieldChangeV::ChangeType(id, k) => if f.id == id {
            FieldV { kind: k, ..f }
        } else {
            f
        },
        _ => f,
    }
}

/// One field-level change applied to one entity, as executable data.
fn apply_field_change_exec(e: &Entity, c: &FieldChange) -> (r: Option<Entity>)
    ensures
        match r {
            Some(e2) => apply_field_change(e.deep_view(), c.deep_view()) == Some(e2.deep_view()),
            None => apply_field_change(e.deep_view(), c.deep_view()) is None,
        },
{
    let ghost ev = e.deep_view();
    let ghost cv = c.deep_view();
    match c {
        FieldChange::ChangeNullable(id, _) | FieldChange::Rename(id, _) | FieldChange::ChangeRule(
            id,
            _,
            _,
        ) | FieldChange::ChangeType(id, _) => {
            let pos = match find_field_pos(&e.fields, *id) {
                None => {
                    return None;
                },
                Some(p) => p,
            };
            if e.fields[pos].base {
                return None;
            }
            let not_text = match &e.fields[pos].kind {
                EntityFieldType::TEXT { .. } => false,
                _ => true,
            };
            let needs_text = match c {
                FieldChange::ChangeRule(_, _, _) => true,
                _ => false,
            };
            if needs_text && not_text {
                return None;
            }
            let mut e2 = clone_entity(e);
            e2.fields = map_fields(&e.fields, c);
            proof {
                assert(e2.deep_view() =~= (EntityV {
                    fields: e2.deep_view().fields,
                    ..ev
                }));
            }
            Some(e2)
        },
        FieldChange::ChangeDTO(ds) => {
            let mut e2 = clone_entity(e);
            e2.dtos = clone_dtos(ds);
            proof {
                assert(e2.deep_view() =~= (EntityV { dtos: ds.deep_view(), ..ev }));
            }
            Some(e2)
        },
        FieldChange::AddField(f) => {
            match find_field_pos(&e.fields, f.id) {
                Some(_) => {
                    return None;
                },
                None => {},
            }
            if e.has_field_named(&f.name) {
                return None;
            }
            if f.primary_key {
                return None;
            }
            let mut e2 = clone_entity(e);
            e2.fields.push(clone_field(f));
            proof {
                assert(e2.deep_view() =~= (EntityV {
                    fields: ev.fields.push(f.deep_view()),
                    ..ev
                }));
            }
            Some(e2)
        },
        FieldChange::RemoveField(id) => {
            let pos = match find_field_pos(&e.fields, *id) {
                None => {
                    return None;
                },
                Some(p) => p,
            };
            if e.fields[pos].base {
                return None;
            }
            let mut kept: Vec<EntityField> = Vec::new();
            let ghost fsv = ev.fields;
            proof {
                assert(fsv.skip(0) =~= fsv);
                assert(kept.deep_view() =~= Seq::<FieldV>::empty());
                assert(Seq::<FieldV>::empty() + without_field(fsv, *id) =~= without_field(
                    fsv,
                    *id,
                ));
            }
            let mut i: usize = 0;
            while i < e.fields.len()
                invariant
                    0 <= i <= e.fields.len(),
                    fsv == e.deep_view().fields,
                    fsv.len() == e.fields.len(),
                    without_field(fsv, *id) == kept.deep_view() + without_field(
                        fsv.skip(i as int),
                        *id,
                    ),
                decreases e.fields.len() - i,
            {
                let ghost pre = kept.deep_view();
                proof {
                    assert(fsv.skip(i as int)[0] == fsv[i as int]);
                    assert(fsv.skip(i as int).drop_first() =~= fsv.skip(i as int + 1));
                }
                if e.fields[i].id != *id {
                    kept.push(clone_field(&e.fields[i]));
                    proof {
                        assert(kept.deep_view() =~= pre + seq![fsv[i as int]]);
                        assert(pre + (seq![fsv[i as int]] + without_field(
                            fsv.skip(i as int + 1),
                            *id,
                        )) =~= (pre + seq![fsv[i as int]]) + without_field(
                            fsv.skip(i as int + 1),
                            *id,
                        ));
                    }
                }
                i = i + 1;
            }
            proof {
                assert(fsv.skip(fsv.len() as int) =~= Seq::<FieldV>::empty());
                assert(kept.deep_view() + Seq::<FieldV>::empty() =~= kept.deep_view());
                assert(kept.deep_view() == without_field(fsv, *id));
            }
            let mut e2 = clone_entity(e);
            e2.fields = kept;
            proof {
                assert(e2.deep_view() =~= (EntityV { fields: without_field(fsv, *id), ..ev }));
            }
            Some(e2)
        },
    }
}

/// A batch of field-level changes folded over one entity, as executable
/// data.
fn apply_field_changes_exec(e: &Entity, cs: &Vec<FieldChange>) -> (r: Option<Entity>)
    ensures
        match r {
            Some(e2) => apply_field_changes(e.deep_view(), cs.deep_view()) == Some(
                e2.deep_view(),
            ),
            None => apply_field_changes(e.deep_view(), cs.deep_view()) is None,
        },
{
    let ghost csv = cs.deep_view();
    let mut cur = clone_entity(e);
    proof {
        assert(csv.skip(0) =~= csv);
    }
    let mut i: usize = 0;
    while i < cs.len()
        invariant
            0 <= i <= cs.len(),
            csv == cs.deep_view(),
            csv.len() == cs.len(),
            apply_field_changes(e.deep_view(), csv) == apply_field_changes(
                cur.deep_view(),
                csv.skip(i as int),
            ),
        decreases cs.len() - i,
    {
        proof {
            assert(csv.skip(i as int)[0] == csv[i as int]);
            assert(csv.skip(i as int).drop_first() =~= csv.skip(i as int + 1));
        }
        match apply_field_change_exec(&cur, &cs[i]) {
            None => {
                return None;
            },
            Some(next) => {
                cur = next;
            },
        }
        i = i + 1;
    }
    proof {
        assert(csv.skip(csv.len() as int) =~= Seq::<FieldChangeV>::empty());
    }
    Some(cur)
}

/// Deep copy of an entity list.
fn clone_entities(es: &Vec<Entity>) -> (r: Vec<Entity>)
    ensures
        r.deep_view() == es.deep_view(),
{
    let mut out: Vec<Entity> = Vec::new();
    let mut i: usize = 0;
    while i < es.len()
        invariant
            0 <= i <= es.len(),
            out.deep_view().len() == i,
            forall|k: int| 0 <= k < i ==> out.deep_view()[k] == es.deep_view()[k],
        decreases es.len() - i,
    {
        out.push(clone_entity(&es[i]));
        i = i + 1;
    }
    proof {
        assert(out.deep_view() =~= es.deep_view());
    }
    out
}

/// One schema change applied to an entity list, as executable data.
fn apply_change_exec(es: &Vec<Entity>, c: &SchemaChange) -> (r: Option<Vec<Entity>>)
    ensures
        match r {
            Some(out) => apply_change(es.deep_view(), c.deep_view()) == Some(out.deep_view()),
            None => apply_change(es.deep_view(), c.deep_view()) is None,
        },
{
    let ghost esv = es.deep_view();
    match c {
        SchemaChange::AddEntity(e) => {
            if contains_uuid(es, &e.uuid) {
                return None;
            }
            let mut out = clone_entities(es);
            out.push(clone_entity(e));
            proof {
                assert(out.deep_view() =~= esv.push(e.deep_view()));
            }
            Some(out)
        },
        SchemaChange::RemoveEntity(u) => {
            if !contains_uuid(es, u) {
                return None;
            }
            let mut kept: Vec<Entity> = Vec::new();
            proof {
                assert(esv.skip(0) =~= esv);
                assert(kept.deep_view() =~= Seq::<EntityV>::empty());
                assert(Seq::<EntityV>::empty() + without_entity(esv, u@) =~= without_entity(
                    esv,
                    u@,
                ));
            }
            let mut i: usize = 0;
            while i < es.len()
                invariant
                    0 <= i <= es.len(),
                    esv == es.deep_view(),
                    esv.len() == es.len(),
                    without_entity(esv, u@) == kept.deep_view() + without_entity(
                        esv.skip(i as int),
                        u@,
                    ),
                decreases es.len() - i,
            {
                let ghost pre = kept.deep_view();
                proof {
                    assert(esv.skip(i as int)[0] == esv[i as int]);
                    assert(esv.skip(i as int).drop_first() =~= esv.skip(i as int + 1));
                }
                if es[i].uuid != *u {
                    kept.push(clone_entity(&es[i]));
                    proof {
                        assert(kept.deep_view() =~= pre + seq![esv[i as int]]);
                        assert(pre + (seq![esv[i as int]] + without_entity(
                            esv.skip(i as int + 1),
                            u@,
                        )) =~= (pre + seq![esv[i as int]]) + without_entity(
                            esv.skip(i as int + 1),
                            u@,
                        ));
                    }
                }
                i = i + 1;
            }
            proof {
                assert(esv.skip(esv.len() as int) =~= Seq::<EntityV>::empty());
                assert(kept.deep_view() + Seq::<EntityV>::empty() =~= kept.deep_view());
                assert(kept.deep_view() == without_entity(esv, u@));
            }
            Some(kept)
        },
        SchemaChange::RenameEntity(u, n) => {
            if !contains_uuid(es, u) {
                return None;
            }
            let mut out: Vec<Entity> = Vec::new();
            let mut i: usize = 0;
            while i < es.len()
                invariant
                    0 <= i <= es.len(),
                    esv == es.deep_view(),
                    esv.len() == es.len(),
                    out.deep_view().len() == i,
                    forall|k: int|
                        0 <= k < i ==> out.deep_view()[k] == (if esv[k].uuid == u@ {
                            EntityV { name: n@, ..esv[k] }
                        } else {
                            esv[k]
                        }),
                decreases es.len() - i,
            {
                let hit = es[i].uuid == *u;
                proof {
                    assert(esv[i as int].uuid == es@[i as int].uuid@);
                }
                let ghost rhs = (if esv[i as int].uuid == u@ {
                    EntityV { name: n@, ..esv[i as int] }
                } else {
                    esv[i as int]
                });
                let e2 = if hit {
                    let mut e2 = clone_entity(&es[i]);
                    e2.name = n.clone();
                    proof {
                        assert(e2.deep_view() =~= (EntityV { name: n@, ..esv[i as int] }));
                    }
                    e2
                } else {
                    clone_entity(&es[i])
                };
                proof {
                    assert(e2.deep_view() == rhs);
                }
                let ghost preout = out.deep_view();
                out.push(e2);
                proof {
                    assert forall|k: int|
                        0 <= k < i + 1 implies out.deep_view()[k] == (if esv[k].uuid == u@ {
                        EntityV { name: n@, ..esv[k] }
                    } else {
                        esv[k]
                    }) by {
                        if k < i {
                            assert(preout[k] == (if esv[k].uuid == u@ {
                                EntityV { name: n@, ..esv[k] }
                            } else {
                                esv[k]
                            }));
                            assert(out.deep_view()[k] == preout[k]);
                        } else {
                            assert(out.deep_view()[k] == e2.deep_view());
                        }
                    }
                }
                i = i + 1;
            }
            proof {
                assert(out.deep_view() =~= esv.map_values(
                    |e: EntityV|
                        if e.uuid == u@ {
                            EntityV { name: n@, ..e }
                        } else {
                            e
                        },
                ));
            }
            Some(out)
        },
        SchemaChange::ChangeEntity(u, fcs) => {
            let e0 = match crate::migrator::find_entity_ref(es, u) {
                None => {
                    return None;
                },
                Some(e0) => e0,
            };
            let e1 = match apply_field_changes_exec(e0, fcs) {
                None => {
                    return None;
                },
                Some(e1) => e1,
            };
            let mut out: Vec<Entity> = Vec::new();
            let mut i: usize = 0;
            while i < es.len()
                invariant
                    0 <= i <= es.len(),
                    esv == es.deep_view(),
                    esv.len() == es.len(),
                    out.deep_view().len() == i,
                    forall|k: int|
                        0 <= k < i ==> out.deep_view()[k] == (if esv[k].uuid == u@ {
                            e1.deep_view()
                        } else {
                            esv[k]
                        }),
                decreases es.len() - i,
            {
                let hit = es[i].uuid == *u;
                proof {
                    assert(esv[i as int].uuid == es@[i as int].uuid@);
                }
                let ghost rhs = (if esv[i as int].uuid == u@ {
                    e1.deep_view()
                } else {
                    esv[i as int]
                });
                let e2 = if hit {
                    clone_entity(&e1)
                } else {
                    clone_entity(&es[i])
                };
                proof {
                    assert(e2.deep_view() == rhs);
                }
                let ghost preout = out.deep_view();
                out.push(e2);
                proof {
                    assert forall|k: int|
                        0 <= k < i + 1 implies out.deep_view()[k] == (if esv[k].uuid == u@ {
                        e1.deep_view()
                    } else {
                        esv[k]
                    }) by {
                        if k < i {
                            assert(preout[k] == (if esv[k].uuid == u@ {
                                e1.deep_view()
                            } else {
                                esv[k]
                            }));
                            assert(out.deep_view()[k] == preout[k]);
                        } else {
                            assert(out.deep_view()[k] == e2.deep_view());
                        }
                    }
                }
                i = i + 1;
            }
            proof {
                let ghost e1v = e1.deep_view();
                assert(out.deep_view() =~= esv.map_values(
                    |e: EntityV|
                        if e.uuid == u@ {
                            e1v
                        } else {
                            e
                        },
                ));
            }
            Some(out)
        },
    }
}

/// The store-adapter interface the migrator drives; an adapter applies an
/// ordered change list toward a target version inside one atomic unit of
/// work, and every adapter owes its callers the same contract: an idempotent
/// no-op when the recorded version is already at or beyond the target,
/// rejection of unconsented destructive changes, and an all-or-nothing apply
/// that records one history row on success.
pub trait Migrator {
    /// The entities the store currently holds, as their models.
    spec fn store_entities(&self) -> Seq<EntityV>;

    /// The store's migration history, oldest first.
    spec fn store_history(&self) -> Seq<RecordV>;

    fn migrate(
        &mut self,
        changes: Vec<SchemaChange>,
        target_version: Version,
        allow_destructive: bool,
    ) -> (r: Result<(), MigrateError>)
        ensures
            ({
                let pre_e = old(self).store_entities();
                let pre_h = old(self).store_history();
                let post_e = final(self).store_entities();
                let post_h = final(self).store_history();
                let csv = changes.deep_view();
                if pre_h.len() > 0 && !pre_h.last().version.spec_lt(target_version) {
                    r == Ok::<(), MigrateError>(()) && post_e == pre_e && post_h == pre_h
                } else if has_destructive(csv) && !allow_destructive {
                    r == Err::<(), MigrateError>(MigrateError::DestructiveChangeRejected)
                        && post_e == pre_e && post_h == pre_h
                } else {
                    match apply_all(pre_e, csv) {
                        None => post_e == pre_e && post_h == pre_h && (r matches Err(e) && (
                        e matches MigrateError::ApplyFailed(i) && 0 <= (i as int) < csv.len()
                            && (apply_all(pre_e, csv.take(i as int)) matches Some(mid)
                            && apply_change(mid, csv[i as int]) is None))),
                        Some(es2) => r == Ok::<(), MigrateError>(()) && post_e == es2
                            && post_h == pre_h.push(
                            RecordV { version: target_version, changes: csv },
                        ),
                    }
                }
            }),
    ;
}

/// An adapter stub for a relational store, addressed by its connection
/// string; its change application is not implemented here.
pub struct SqliteMigrator {
    pub connection_string: String,
}

impl MemoryStore {
    /// An empty store: no entities, no history.
    pub fn new() -> (r: MemoryStore)
        ensures
            r.deep_view().entities.len() == 0,
            r.deep_view().history.len() == 0,
    {
        MemoryStore { entities: Vec::new(), history: Vec::new() }
    }

    /// The version the store last migrated to, from the newest history row.
    pub fn recorded_version(&self) -> (r: Option<Version>)
        ensures
            match r {
                Some(v) => self.deep_view().history.len() > 0 && v
                    == self.deep_view().history.last().version,
                None => self.deep_view().history.len() == 0,
            },
    {
        if self.history.len() == 0 {
            None
        } else {
            Some(self.history[self.history.len() - 1].version)
        }
    }

    /// Applies an ordered change list toward `target_version`, atomically.
    ///
    /// When the newest history row already records a version at or beyond
    /// the target, nothing happens and the call reports success, so a
    /// duplicate invocation is a no-op. A list holding a destructive change
    /// is rejected outright unless `allow_destructive` is set. When any
    /// single change is rejected by the store, the whole batch is rolled
    /// back: the store is exactly as it was, and the error names the failing
    /// position. On success the entities are the folded result and one new
    /// history row records the target version and the applied changes.
    pub fn run_migration(
        &mut self,
        changes: Vec<SchemaChange>,
        target_version: Version,
        allow_destructive: bool,
    ) -> (r: Result<(), MigrateError>)
        ensures
            ({
                let pre = old(self).deep_view();
                let post = final(self).deep_view();
                let csv = changes.deep_view();
                if pre.history.len() > 0 && !pre.history.last().version.spec_lt(
                    target_version,
                ) {
                    r == Ok::<(), MigrateError>(()) && post == pre
                } else if has_destructive(csv) && !allow_destructive {
                    r == Err::<(), MigrateError>(MigrateError::DestructiveChangeRejected) && post
                        == pre
                } else {
                    match apply_all(pre.entities, csv) {
                        None => post == pre && (r matches Err(e) && (e matches
                            MigrateError::ApplyFailed(i) && 0 <= (i as int) < csv.len() && (
                        apply_all(pre.entities, csv.take(i as int)) matches Some(mid)
                            && apply_change(mid, csv[i as int]) is None))),
                        Some(es2) => r == Ok::<(), MigrateError>(()) && post.entities == es2
                            && post.history == pre.history.push(
                            RecordV { version: target_version, changes: csv },
                        ),
                    }
                }
            }),
    {
        let ghost pre = self.deep_view();
        let ghost csv = changes.deep_view();
        match self.recorded_version() {
            Some(v) => {
                proof {
                    assert(pre.history.last().version == v);
                }
                if !v.precedes(&target_version) {
                    return Ok(());
                }
            },
            None => {},
        }
        if changes_destructive(&changes) && !allow_destructive {
            return Err(MigrateError::DestructiveChangeRejected);
        }
        let mut cur = clone_entities(&self.entities);
        proof {
            assert(csv.skip(0) =~= csv);
            assert(csv.take(0) =~= Seq::<SchemaChangeV>::empty());
        }
        let mut i: usize = 0;
        while i < changes.len()
            invariant
                0 <= i <= changes.len(),
                csv == changes.deep_view(),
                csv.len() == changes.len(),
                self.deep_view() == pre,
                !(pre.history.len() > 0 && !pre.history.last().version.spec_lt(target_version)),
                !(has_destructive(csv) && !allow_destructive),
                apply_all(pre.entities, csv.take(i as int)) == Some(cur.deep_view()),
                apply_all(pre.entities, csv) == apply_all(
                    cur.deep_view(),
                    csv.skip(i as int),
                ),
            decreases changes.len() - i,
        {
            proof {
                assert(csv.skip(i as int)[0] == csv[i as int]);
                assert(csv.skip(i as int).drop_first() =~= csv.skip(i as int + 1));
            }
            match apply_change_exec(&cur, &changes[i]) {
                None => {
                    proof {
                        assert(apply_all(cur.deep_view(), csv.skip(i as int)) is None);
                        assert(apply_all(pre.entities, csv) is None);
                    }
                    return Err(MigrateError::ApplyFailed(i));
                },
                Some(next) => {
                    proof {
                        assert(csv.take(i as int + 1) =~= csv.take(i as int).push(csv[i as int]));
                        lemma_apply_all_snoc(pre.entities, csv.take(i as int), csv[i as int]);
                    }
                    cur = next;
                },
            }
            i = i + 1;
        }
        proof {
            assert(csv.skip(csv.len() as int) =~= Seq::<SchemaChangeV>::empty());
            assert(apply_all(pre.entities, csv) == Some(cur.deep_view()));
        }
        self.entities = cur;
        self.history.push(MigrationRecord { version: target_version, changes });
        proof {
            assert(self.deep_view().history =~= pre.history.push(
                RecordV { version: target_version, changes: csv },
            ));
        }
        Ok(())
    }
}

impl Migrator for MemoryStore {
    open spec fn store_entities(&self) -> Seq<EntityV> {
        self.deep_view().entities
    }

    open spec fn store_history(&self) -> Seq<RecordV> {
        self.deep_view().history
    }

    fn migrate(
        &mut self,
        changes: Vec<SchemaChange>,
        target_version: Version,
        allow_destructive: bool,
    ) -> (r: Result<(), MigrateError>) {
        self.run_migration(changes, target_version, allow_destructive)
    }
}

} // verus!
