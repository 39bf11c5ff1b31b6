use vstd::prelude::*;

use crate::migrator::{
    added_field_changes, addition_changes, entity_changes, entity_entry_changes,
    field_pair_changes, find_entity, find_field, matched_field_changes, removal_rename_changes,
    rules_changed, same_base_type, spec_diff, SchemaChangeV,
};
use crate::schema::{entity_wf, unique_uuids, EntityV, FieldV, SchemaV, Version};
use crate::store::RecordV;

verus! {

/// With unique identity tokens, the search finds each entity at its own
/// token.
pub proof fn lemma_find_entity_at(es: Seq<EntityV>, k: int)
    requires
        unique_uuids(es),
        0 <= k < es.len(),
    ensures
        find_entity(es, es[k].uuid) == Some(es[k]),
    decreases es.len(),
{
    if k == 0 {
    } else {
        assert(es[0].uuid != es[k].uuid);
        let rest = es.drop_first();
        assert forall|i: int, j: int| 0 <= i < j < rest.len() implies rest[i].uuid
            != rest[j].uuid by {
            assert(rest[i] == es[i + 1]);
            assert(rest[j] == es[j + 1]);
        }
        lemma_find_entity_at(rest, k - 1);
        assert(rest[k - 1] == es[k]);
    }
}

/// With unique field identity tokens, the search finds each field at its own
/// token.
pub proof fn lemma_find_field_at(fs: Seq<FieldV>, k: int)
    requires
        forall|i: int, j: int| 0 <= i < j < fs.len() ==> fs[i].id != fs[j].id,
        0 <= k < fs.len(),
    ensures
        find_field(fs, fs[k].id) == Some(fs[k]),
    decreases fs.len(),
{
    if k == 0 {
    } else {
        assert(fs[0].id != fs[k].id);
        let rest = fs.drop_first();
        assert forall|i: int, j: int| 0 <= i < j < rest.len() implies rest[i].id
            != rest[j].id by {
            assert(rest[i] == fs[i + 1]);
            assert(rest[j] == fs[j + 1]);
        }
        lemma_find_field_at(rest, k - 1);
        assert(rest[k - 1] == fs[k]);
    }
}

/// A field compared against itself contributes no change.
pub proof fn lemma_pair_self_empty(f: FieldV)
    ensures
        field_pair_changes(f, f) =~= Seq::<crate::migrator::FieldChangeV>::empty(),
{
    assert(same_base_type(f.kind, f.kind)) by {
        match f.kind {
            crate::schema::FieldTypeV::TEXT { .. } => {},
            crate::schema::FieldTypeV::NUMBER { .. } => {},
            crate::schema::FieldTypeV::BOOL => {},
            crate::schema::FieldTypeV::DATE { .. } => {},
            crate::schema::FieldTypeV::RELATION { .. } => {},
            crate::schema::FieldTypeV::RELATION_MANY { .. } => {},
        }
    }
    assert(!rules_changed(f.kind, f.kind));
}

/// When every old field is found unchanged in the new snapshot, the matched
/// walk contributes no change.
pub proof fn lemma_matched_empty(oldf: Seq<FieldV>, newf: Seq<FieldV>)
    requires
        forall|k: int| 0 <= k < oldf.len() ==> #[trigger] find_field(newf, oldf[k].id) == Some(
            oldf[k],
        ),
    ensures
        matched_field_changes(oldf, newf) =~= Seq::<crate::migrator::FieldChangeV>::empty(),
    decreases oldf.len(),
{
    if oldf.len() == 0 {
    } else {
        let f = oldf[0];
        let rest = oldf.drop_first();
        assert(find_field(newf, f.id) == Some(f));
        lemma_pair_self_empty(f);
        assert forall|k: int| 0 <= k < rest.len() implies #[trigger] find_field(
            newf,
            rest[k].id,
        ) == Some(rest[k]) by {
            assert(rest[k] == oldf[k + 1]);
        }
        lemma_matched_empty(rest, newf);
    }
}

/// When every new field's identity token is already known to the old
/// snapshot, the addition walk contributes no change.
pub proof fn lemma_added_empty(oldf: Seq<FieldV>, newf: Seq<FieldV>)
    requires
        forall|k: int| 0 <= k < newf.len() ==> (#[trigger] find_field(
            oldf,
            newf[k].id,
        )) is Some,
    ensures
        added_field_changes(oldf, newf) =~= Seq::<crate::migrator::FieldChangeV>::empty(),
    decreases newf.len(),
{
    if newf.len() == 0 {
    } else {
        let rest = newf.drop_first();
        assert(find_field(oldf, newf[0].id) is Some);
        assert forall|k: int| 0 <= k < rest.len() implies (#[trigger] find_field(
            oldf,
            rest[k].id,
        )) is Some by {
            assert(rest[k] == newf[k + 1]);
        }
        lemma_added_empty(oldf, rest);
    }
}

/// Two matched entities with the same fields and derived views contribute no
/// field-level change, whatever their names.
pub proof fn lemma_entity_changes_empty(olde: EntityV, newe: EntityV)
    requires
        entity_wf(olde),
        newe.fields == olde.fields,
        newe.dtos == olde.dtos,
    ensures
        entity_changes(olde, newe) =~= Seq::<crate::migrator::FieldChangeV>::empty(),
{
    assert forall|k: int| 0 <= k < olde.fields.len() implies #[trigger] find_field(
        newe.fields,
        olde.fields[k].id,
    ) == Some(olde.fields[k]) by {
        lemma_find_field_at(olde.fields, k);
    }
    lemma_matched_empty(olde.fields, newe.fields);
    assert forall|k: int| 0 <= k < newe.fields.len() implies (#[trigger] find_field(
        olde.fields,
        newe.fields[k].id,
    )) is Some by {
        lemma_find_field_at(olde.fields, k);
    }
    lemma_added_empty(olde.fields, newe.fields);
}

/// When every old entity is found unchanged in the new snapshot, the walk
/// over old entities contributes no change.
pub proof fn lemma_removal_rename_empty(olds: Seq<EntityV>, news: Seq<EntityV>)
    requires
        forall|k: int| 0 <= k < olds.len() ==> #[trigger] find_entity(news, olds[k].uuid)
            == Some(olds[k]),
        forall|k: int| 0 <= k < olds.len() ==> entity_wf(#[trigger] olds[k]),
    ensures
        removal_rename_changes(olds, news) =~= Seq::<SchemaChangeV>::empty(),
    decreases olds.len(),
{
    if olds.len() == 0 {
    } else {
        let e = olds[0];
        assert(find_entity(news, e.uuid) == Some(e));
        lemma_entity_changes_empty(e, e);
        assert(entity_entry_changes(e, news) =~= Seq::<SchemaChangeV>::empty());
        let rest = olds.drop_first();
        assert forall|k: int| 0 <= k < rest.len() implies #[trigger] find_entity(
            news,
            rest[k].uuid,
        ) == Some(rest[k]) by {
            assert(rest[k] == olds[k + 1]);
        }
        assert forall|k: int| 0 <= k < rest.len() implies entity_wf(#[trigger] rest[k]) by {
            assert(rest[k] == olds[k + 1]);
        }
        lemma_removal_rename_empty(rest, news);
    }
}

/// When every new entity's identity token is already known to the old
/// snapshot, the walk over new entities adds nothing.
pub proof fn lemma_addition_empty(olds: Seq<EntityV>, news: Seq<EntityV>)
    requires
        forall|k: int| 0 <= k < news.len() ==> (#[trigger] find_entity(
            olds,
            news[k].uuid,
        )) is Some,
    ensures
        addition_changes(olds, news) =~= Seq::<SchemaChangeV>::empty(),
    decreases news.len(),
{
    if news.len() == 0 {
    } else {
        let rest = news.drop_first();
        assert(find_entity(olds, news[0].uuid) is Some);
        assert forall|k: int| 0 <= k < rest.len() implies (#[trigger] find_entity(
            olds,
            rest[k].uuid,
        )) is Some by {
            assert(rest[k] == news[k + 1]);
        }
        lemma_addition_empty(olds, rest);
    }
}

/// Two snapshots with equal entities differ in nothing: the diff is empty,
/// so a comparison that passes the version and identity checks returns an
/// empty change sequence.
pub proof fn lemma_no_difference_empty_diff(old: SchemaV, new: SchemaV)
    requires
        new.entities == old.entities,
        unique_uuids(old.entities),
        forall|k: int| 0 <= k < old.entities.len() ==> entity_wf(#[trigger] old.entities[k]),
    ensures
        spec_diff(old, new) =~= Seq::<SchemaChangeV>::empty(),
{
    assert forall|k: int| 0 <= k < old.entities.len() implies #[trigger] find_entity(
        new.entities,
        old.entities[k].uuid,
    ) == Some(old.entities[k]) by {
        lemma_find_entity_at(old.entities, k);
    }
    lemma_removal_rename_empty(old.entities, new.entities);
    assert forall|k: int| 0 <= k < new.entities.len() implies (#[trigger] find_entity(
        old.entities,
        new.entities[k].uuid,
    )) is Some by {
        lemma_find_entity_at(old.entities, k);
    }
    lemma_addition_empty(old.entities, new.entities);
}

/// Renaming one entity and changing nothing else yields exactly one rename
/// change: no removal, no addition, no field-level record.
pub proof fn lemma_rename_only_diff(old: SchemaV, new: SchemaV, x: int, n2: Seq<char>)
    requires
        0 <= x < old.entities.len(),
        new.entities == old.entities.update(x, (EntityV { name: n2, ..old.entities[x] })),
        n2 != old.entities[x].name,
        unique_uuids(old.entities),
        forall|k: int| 0 <= k < old.entities.len() ==> entity_wf(#[trigger] old.entities[k]),
    ensures
        spec_diff(old, new) =~= seq![
            SchemaChangeV::RenameEntity(old.entities[x].uuid, n2),
        ],
{
    let olds = old.entities;
    let news = new.entities;
    assert(news.len() == olds.len());
    assert forall|k: int| 0 <= k < news.len() implies news[k].uuid == olds[k].uuid by {
        if k == x {
        } else {
            assert(news[k] == olds[k]);
        }
    }
    assert forall|i: int, j: int| 0 <= i < j < news.len() implies news[i].uuid
        != news[j].uuid by {
        assert(olds[i].uuid != olds[j].uuid);
    }
    assert forall|k: int| 0 <= k < olds.len() implies #[trigger] find_entity(
        news,
        olds[k].uuid,
    ) == Some(news[k]) by {
        lemma_find_entity_at(news, k);
        assert(news[k].uuid == olds[k].uuid);
    }
    lemma_rename_walk(olds, news, x, n2);
    assert forall|k: int| 0 <= k < news.len() implies (#[trigger] find_entity(
        olds,
        news[k].uuid,
    )) is Some by {
        lemma_find_entity_at(olds, k);
        assert(news[k].uuid == olds[k].uuid);
    }
    lemma_addition_empty(olds, news);
    assert(spec_diff(old, new) =~= seq![SchemaChangeV::RenameEntity(olds[x].uuid, n2)]);
}

/// The walk over old entities, when the new snapshot renames exactly the
/// entity at `x` and keeps everything else, yields that one rename.
pub proof fn lemma_rename_walk(olds: Seq<EntityV>, news: Seq<EntityV>, x: int, n2: Seq<char>)
    requires
        0 <= x < olds.len(),
        n2 != olds[x].name,
        forall|k: int| 0 <= k < olds.len() && k != x ==> #[trigger] find_entity(
            news,
            olds[k].uuid,
        ) == Some(olds[k]),
        find_entity(news, olds[x].uuid) == Some((EntityV { name: n2, ..olds[x] })),
        forall|k: int| 0 <= k < olds.len() ==> entity_wf(#[trigger] olds[k]),
    ensures
        removal_rename_changes(olds, news) =~= seq![
            SchemaChangeV::RenameEntity(olds[x].uuid, n2),
        ],
    decreases olds.len(),
{
    let e = olds[0];
    let rest = olds.drop_first();
    assert forall|k: int| 0 <= k < rest.len() implies entity_wf(#[trigger] rest[k]) by {
        assert(rest[k] == olds[k + 1]);
    }
    if x == 0 {
        let renamed = EntityV { name: n2, ..e };
        assert(find_entity(news, e.uuid) == Some(renamed));
        lemma_entity_changes_empty(e, renamed);
        assert(entity_entry_changes(e, news) =~= seq![
            SchemaChangeV::RenameEntity(e.uuid, n2),
        ]);
        assert forall|k: int| 0 <= k < rest.len() implies #[trigger] find_entity(
            news,
            rest[k].uuid,
        ) == Some(rest[k]) by {
            assert(rest[k] == olds[k + 1]);
        }
        lemma_removal_rename_empty(rest, news);
    } else {
        assert(find_entity(news, e.uuid) == Some(e));
        lemma_entity_changes_empty(e, e);
        assert(entity_entry_changes(e, news) =~= Seq::<SchemaChangeV>::empty());
        assert forall|k: int| 0 <= k < rest.len() && k != x - 1 implies #[trigger] find_entity(
            news,
            rest[k].uuid,
        ) == Some(rest[k]) by {
            assert(rest[k] == olds[k + 1]);
        }
        assert(rest[x - 1] == olds[x]);
        lemma_rename_walk(rest, news, x - 1, n2);
    }
}

/// A version never precedes itself, so a store whose newest history row
/// records the target version treats a repeated migration to that version as
/// a no-op: by `run_migration`'s contract the second call returns success
/// and leaves the store exactly as it was.
pub proof fn lemma_migration_idempotent(history: Seq<RecordV>, v: Version, cs: Seq<
    SchemaChangeV,
>)
    requires
        history.len() > 0,
        history.last() == (RecordV { version: v, changes: cs }),
    ensures
        history.len() > 0 && !history.last().version.spec_lt(v),
{
    assert(!v.spec_lt(v));
}

} // verus!
