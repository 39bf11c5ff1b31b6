use vstd::prelude::*;

use crate::migrator::{find_entity, FieldChangeV, SchemaChange, SchemaChangeV};
use crate::schema::{field_targets, has_entity_uuid, Entity, EntityField, EntityFieldType, EntityV};

verus! {

/// Why an ordering was refused: removals form a reference cycle, or an
/// entity is removed while a surviving relation field still points at it and
/// no change in the list drops that field.
#[derive(Clone, Copy, PartialEq, Eq, Structural, Debug)]
pub enum SortError {
    CyclicDependency,
    UnresolvedReference,
}

/// The application phase a change belongs to: additions first, field-level
/// changes and renames second, removals last.
pub open spec fn change_rank(c: SchemaChangeV) -> int {
    match c {
        SchemaChangeV::AddEntity(_) => 0,
        SchemaChangeV::RemoveEntity(_) => 2,
        _ => 1,
    }
}

/// Whether the changes stand in phase order: no change is preceded by one of
/// a later phase, so every addition comes before every field-level change,
/// and every removal after them.
pub open spec fn phase_ordered(cs: Seq<SchemaChangeV>) -> bool {
    forall|i: int, j: int| 0 <= i < j < cs.len() ==> change_rank(cs[i]) <= change_rank(cs[j])
}

/// Whether the field-level change drops the identified field: it removes it
/// or replaces its type.
pub open spec fn drops_field(c: FieldChangeV, fid: u64) -> bool {
    match c {
        FieldChangeV::RemoveField(id) => id == fid,
        FieldChangeV::ChangeType(id, _) => id == fid,
        _ => false,
    }
}

/// Whether some change of the batch drops the identified field.
pub open spec fn drops_some_field(fcs: Seq<FieldChangeV>, fid: u64) -> bool {
    exists|j: int| 0 <= j < fcs.len() && #[trigger] drops_field(fcs[j], fid)
}

/// Whether the change drops the identified field of the identified entity.
pub open spec fn change_drops_field(c: SchemaChangeV, eu: Seq<char>, fid: u64) -> bool {
    match c {
        SchemaChangeV::ChangeEntity(w, fcs) => w == eu && drops_some_field(fcs, fid),
        _ => false,
    }
}

/// Whether some change of the list drops the identified field.
pub open spec fn list_drops_field(cs: Seq<SchemaChangeV>, eu: Seq<char>, fid: u64) -> bool {
    exists|i: int| 0 <= i < cs.len() && #[trigger] change_drops_field(cs[i], eu, fid)
}

/// Whether some change of the list removes the identified entity.
pub open spec fn removes_uuid(cs: Seq<SchemaChangeV>, u: Seq<char>) -> bool {
    exists|i: int| 0 <= i < cs.len() && cs[i] == SchemaChangeV::RemoveEntity(u)
}

/// Whether some change of the list adds an entity carrying the identity
/// token.
pub open spec fn adds_uuid(cs: Seq<SchemaChangeV>, u: Seq<char>) -> bool {
    exists|i: int|
        0 <= i < cs.len() && (#[trigger] cs[i] matches SchemaChangeV::AddEntity(e) && e.uuid
            == u)
}

/// Whether the token sequence holds the token.
pub open spec fn token_in(ss: Seq<Seq<char>>, u: Seq<char>) -> bool {
    exists|k: int| 0 <= k < ss.len() && ss[k] == u
}

/// Whether the entity holds a relation field pointing at the token.
pub open spec fn entity_references(e: EntityV, u: Seq<char>) -> bool {
    exists|j: int, t: int|
        0 <= j < e.fields.len() && 0 <= t < field_targets(e.fields[j].kind).len()
            && #[trigger] field_targets(e.fields[j].kind)[t] == u
}

/// Whether the first entity carrying token `w` in the old snapshot holds a
/// relation field pointing at `u`.
pub open spec fn references(olds: Seq<EntityV>, w: Seq<char>, u: Seq<char>) -> bool {
    match find_entity(olds, w) {
        Some(e) => entity_references(e, u),
        None => false,
    }
}

/// Whether another token of the batch belongs to an entity that points at
/// `u`, so `u` cannot be removed while the batch is pending.
pub open spec fn blocked_in(olds: Seq<EntityV>, s: Seq<Seq<char>>, u: Seq<char>) -> bool {
    exists|k: int| 0 <= k < s.len() && #[trigger] s[k] != u && references(olds, s[k], u)
}

/// A nonempty batch of removed tokens each of which another batch member's
/// entity still points at: no member of the batch can be removed first.
pub open spec fn all_blocked(olds: Seq<EntityV>, cs: Seq<SchemaChangeV>, s: Seq<Seq<char>>) -> bool {
    &&& s.len() > 0
    &&& forall|k: int| 0 <= k < s.len() ==> removes_uuid(cs, #[trigger] s[k])
    &&& forall|k: int| 0 <= k < s.len() ==> blocked_in(olds, s, #[trigger] s[k])
}

/// The removals of the list contain a reference cycle: some batch of removed
/// entities reference each other so that none can safely go first.
pub open spec fn removal_cycle(olds: Seq<EntityV>, cs: Seq<SchemaChangeV>) -> bool {
    exists|s: Seq<Seq<char>>| #[trigger] all_blocked(olds, cs, s)
}

/// Removing `u` is safe when every surviving entity's relation field that
/// points at `u` is itself dropped by some change of the list.
pub open spec fn remove_safe(olds: Seq<EntityV>, cs: Seq<SchemaChangeV>, u: Seq<char>) -> bool {
    forall|i: int, j: int, t: int|
        0 <= i < olds.len() && !removes_uuid(cs, olds[i].uuid) && 0 <= j < olds[i].fields.len()
            && 0 <= t < field_targets(olds[i].fields[j].kind).len() && field_targets(
            olds[i].fields[j].kind,
        )[t] == u ==> list_drops_field(cs, olds[i].uuid, olds[i].fields[j].id)
}

/// The condition the sorter must reject: the list removes an entity at which
/// a surviving relation field still points, and no change drops that field,
/// so no order could apply the list without a dangling reference.
pub open spec fn dangling_removal(olds: Seq<EntityV>, cs: Seq<SchemaChangeV>) -> bool {
    exists|r: int|
        0 <= r < cs.len() && (#[trigger] cs[r] matches SchemaChangeV::RemoveEntity(u)
            && !remove_safe(olds, cs, u))
}

/// Removing one element moves each removal witness across the hole.
proof fn lemma_removes_uuid_shift(cs: Seq<SchemaChangeV>, i: int)
    requires
        0 <= i < cs.len(),
    ensures
        forall|u: Seq<char>| #![trigger removes_uuid(cs, u)]
            removes_uuid(cs, u) == (cs[i] == SchemaChangeV::RemoveEntity(u) || removes_uuid(
                cs.remove(i),
                u,
            )),
{
    let rest = cs.remove(i);
    assert forall|u: Seq<char>|
        removes_uuid(cs, u) == (cs[i] == SchemaChangeV::RemoveEntity(u) || removes_uuid(
            rest,
            u,
        )) by {
        if removes_uuid(cs, u) {
            let k = choose|k: int| 0 <= k < cs.len() && cs[k] == SchemaChangeV::RemoveEntity(u);
            if k < i {
                assert(rest[k] == cs[k]);
                assert(removes_uuid(rest, u));
            } else if k > i {
                assert(rest[k - 1] == cs[k]);
                assert(removes_uuid(rest, u));
            }
        }
        if removes_uuid(rest, u) {
            let m = choose|m: int| 0 <= m < rest.len() && rest[m] == SchemaChangeV::RemoveEntity(
                u,
            );
            if m < i {
                assert(cs[m] == rest[m]);
            } else {
                assert(cs[m + 1] == rest[m]);
            }
            assert(removes_uuid(cs, u));
        }
        if cs[i] == SchemaChangeV::RemoveEntity(u) {
            assert(removes_uuid(cs, u));
        }
    }
}

/// Appending one change extends the removal witnesses by at most that change.
proof fn lemma_removes_uuid_push(cs: Seq<SchemaChangeV>, c: SchemaChangeV)
    ensures
        forall|u: Seq<char>| #![trigger removes_uuid(cs.push(c), u)]
            removes_uuid(cs.push(c), u) == (removes_uuid(cs, u) || c
                == SchemaChangeV::RemoveEntity(u)),
{
    let s2 = cs.push(c);
    assert forall|u: Seq<char>|
        removes_uuid(s2, u) == (removes_uuid(cs, u) || c == SchemaChangeV::RemoveEntity(u)) by {
        if removes_uuid(s2, u) {
            let k = choose|k: int| 0 <= k < s2.len() && s2[k] == SchemaChangeV::RemoveEntity(u);
            if k < cs.len() {
                assert(cs[k] == s2[k]);
                assert(removes_uuid(cs, u));
            } else {
                assert(s2[k] == c);
            }
        }
        if removes_uuid(cs, u) {
            let m = choose|m: int| 0 <= m < cs.len() && cs[m] == SchemaChangeV::RemoveEntity(u);
            assert(s2[m] == cs[m]);
            assert(removes_uuid(s2, u));
        }
        if c == SchemaChangeV::RemoveEntity(u) {
            assert(s2[cs.len() as int] == c);
            assert(removes_uuid(s2, u));
        }
    }
}

/// Concatenation unions the removal witnesses.
proof fn lemma_removes_uuid_concat(a: Seq<SchemaChangeV>, b: Seq<SchemaChangeV>)
    ensures
        forall|u: Seq<char>| #![trigger removes_uuid(a + b, u)]
            removes_uuid(a + b, u) == (removes_uuid(a, u) || removes_uuid(b, u)),
{
    let s2 = a + b;
    assert forall|u: Seq<char>|
        removes_uuid(s2, u) == (removes_uuid(a, u) || removes_uuid(b, u)) by {
        if removes_uuid(s2, u) {
            let k = choose|k: int| 0 <= k < s2.len() && s2[k] == SchemaChangeV::RemoveEntity(u);
            if k < a.len() {
                assert(a[k] == s2[k]);
                assert(removes_uuid(a, u));
            } else {
                assert(b[k - a.len()] == s2[k]);
                assert(removes_uuid(b, u));
            }
        }
        if removes_uuid(a, u) {
            let m = choose|m: int| 0 <= m < a.len() && a[m] == SchemaChangeV::RemoveEntity(u);
            assert(s2[m] == a[m]);
            assert(removes_uuid(s2, u));
        }
        if removes_uuid(b, u) {
            let m = choose|m: int| 0 <= m < b.len() && b[m] == SchemaChangeV::RemoveEntity(u);
            assert(s2[m + a.len()] == b[m]);
            assert(removes_uuid(s2, u));
        }
    }
}

/// Removing one element moves each addition witness across the hole.
proof fn lemma_adds_uuid_shift(cs: Seq<SchemaChangeV>, i: int)
    requires
        0 <= i < cs.len(),
    ensures
        forall|u: Seq<char>| #![trigger adds_uuid(cs, u)]
            adds_uuid(cs, u) == ((cs[i] matches SchemaChangeV::AddEntity(e) && e.uuid == u)
                || adds_uuid(cs.remove(i), u)),
{
    let rest = cs.remove(i);
    assert forall|u: Seq<char>|
        adds_uuid(cs, u) == ((cs[i] matches SchemaChangeV::AddEntity(e) && e.uuid == u)
            || adds_uuid(rest, u)) by {
        if adds_uuid(cs, u) {
            let k = choose|k: int|
                0 <= k < cs.len() && (#[trigger] cs[k] matches SchemaChangeV::AddEntity(e)
                    && e.uuid == u);
            if k < i {
                assert(rest[k] == cs[k]);
                assert(adds_uuid(rest, u));
            } else if k > i {
                assert(rest[k - 1] == cs[k]);
                assert(adds_uuid(rest, u));
            }
        }
        if adds_uuid(rest, u) {
            let m = choose|m: int|
                0 <= m < rest.len() && (#[trigger] rest[m] matches SchemaChangeV::AddEntity(e)
                    && e.uuid == u);
            if m < i {
                assert(cs[m] == rest[m]);
            } else {
                assert(cs[m + 1] == rest[m]);
            }
            assert(adds_uuid(cs, u));
        }
        if cs[i] matches SchemaChangeV::AddEntity(e) && e.uuid == u {
            assert(adds_uuid(cs, u));
        }
    }
}

/// Appending one change extends the addition witnesses by at most that
/// change.
proof fn lemma_adds_uuid_push(cs: Seq<SchemaChangeV>, c: SchemaChangeV)
    ensures
        forall|u: Seq<char>| #![trigger adds_uuid(cs.push(c), u)]
            adds_uuid(cs.push(c), u) == (adds_uuid(cs, u) || (c matches SchemaChangeV::AddEntity(
                e,
            ) && e.uuid == u)),
{
    let s2 = cs.push(c);
    assert forall|u: Seq<char>|
        adds_uuid(s2, u) == (adds_uuid(cs, u) || (c matches SchemaChangeV::AddEntity(e) && e.uuid
            == u)) by {
        if adds_uuid(s2, u) {
            let k = choose|k: int|
                0 <= k < s2.len() && (#[trigger] s2[k] matches SchemaChangeV::AddEntity(e)
                    && e.uuid == u);
            if k < cs.len() {
                assert(cs[k] == s2[k]);
                assert(adds_uuid(cs, u));
            } else {
                assert(s2[k] == c);
            }
        }
        if adds_uuid(cs, u) {
            let m = choose|m: int|
                0 <= m < cs.len() && (#[trigger] cs[m] matches SchemaChangeV::AddEntity(e)
                    && e.uuid == u);
            assert(s2[m] == cs[m]);
            assert(adds_uuid(s2, u));
        }
        if c matches SchemaChangeV::AddEntity(e) && e.uuid == u {
            assert(s2[cs.len() as int] == c);
            assert(adds_uuid(s2, u));
        }
    }
}

/// Concatenation unions the addition witnesses.
proof fn lemma_adds_uuid_concat(a: Seq<SchemaChangeV>, b: Seq<SchemaChangeV>)
    ensures
        forall|u: Seq<char>| #![trigger adds_uuid(a + b, u)]
            adds_uuid(a + b, u) == (adds_uuid(a, u) || adds_uuid(b, u)),
{
    let s2 = a + b;
    assert forall|u: Seq<char>| adds_uuid(s2, u) == (adds_uuid(a, u) || adds_uuid(b, u)) by {
        if adds_uuid(s2, u) {
            let k = choose|k: int|
                0 <= k < s2.len() && (#[trigger] s2[k] matches SchemaChangeV::AddEntity(e)
                    && e.uuid == u);
            if k < a.len() {
                assert(a[k] == s2[k]);
                assert(adds_uuid(a, u));
            } else {
                assert(b[k - a.len()] == s2[k]);
                assert(adds_uuid(b, u));
            }
        }
        if adds_uuid(a, u) {
            let m = choose|m: int|
                0 <= m < a.len() && (#[trigger] a[m] matches SchemaChangeV::AddEntity(e)
                    && e.uuid == u);
            assert(s2[m] == a[m]);
            assert(adds_uuid(s2, u));
        }
        if adds_uuid(b, u) {
            let m = choose|m: int|
                0 <= m < b.len() && (#[trigger] b[m] matches SchemaChangeV::AddEntity(e)
                    && e.uuid == u);
            assert(s2[m + a.len()] == b[m]);
            assert(adds_uuid(s2, u));
        }
    }
}

/// Removing one token moves each membership witness across the hole.
proof fn lemma_token_in_shift(ss: Seq<Seq<char>>, i: int)
    requires
        0 <= i < ss.len(),
    ensures
        forall|u: Seq<char>| #![trigger token_in(ss, u)]
            token_in(ss, u) == (ss[i] == u || token_in(ss.remove(i), u)),
{
    let rest = ss.remove(i);
    assert forall|u: Seq<char>| token_in(ss, u) == (ss[i] == u || token_in(rest, u)) by {
        if token_in(ss, u) {
            let k = choose|k: int| 0 <= k < ss.len() && ss[k] == u;
            if k < i {
                assert(rest[k] == ss[k]);
                assert(token_in(rest, u));
            } else if k > i {
                assert(rest[k - 1] == ss[k]);
                assert(token_in(rest, u));
            }
        }
        if token_in(rest, u) {
            let m = choose|m: int| 0 <= m < rest.len() && rest[m] == u;
            if m < i {
                assert(ss[m] == rest[m]);
            } else {
                assert(ss[m + 1] == rest[m]);
            }
            assert(token_in(ss, u));
        }
        if ss[i] == u {
            assert(token_in(ss, u));
        }
    }
}

/// Appending one token extends the membership witnesses by at most it.
proof fn lemma_token_in_push(ss: Seq<Seq<char>>, x: Seq<char>)
    ensures
        forall|u: Seq<char>| #![trigger token_in(ss.push(x), u)]
            token_in(ss.push(x), u) == (token_in(ss, u) || u == x),
{
    let s2 = ss.push(x);
    assert forall|u: Seq<char>| token_in(s2, u) == (token_in(ss, u) || u == x) by {
        if token_in(s2, u) {
            let k = choose|k: int| 0 <= k < s2.len() && s2[k] == u;
            if k < ss.len() {
                assert(ss[k] == s2[k]);
                assert(token_in(ss, u));
            } else {
                assert(s2[k] == x);
            }
        }
        if token_in(ss, u) {
            let m = choose|m: int| 0 <= m < ss.len() && ss[m] == u;
            assert(s2[m] == ss[m]);
            assert(token_in(s2, u));
        }
        if u == x {
            assert(s2[ss.len() as int] == x);
            assert(token_in(s2, u));
        }
    }
}

/// Removing one entity moves each token witness across the hole.
proof fn lemma_entity_uuid_shift(es: Seq<EntityV>, i: int)
    requires
        0 <= i < es.len(),
    ensures
        forall|u: Seq<char>| #![trigger has_entity_uuid(es, u)]
            has_entity_uuid(es, u) == (es[i].uuid == u || has_entity_uuid(es.remove(i), u)),
{
    let rest = es.remove(i);
    assert forall|u: Seq<char>|
        has_entity_uuid(es, u) == (es[i].uuid == u || has_entity_uuid(rest, u)) by {
        if has_entity_uuid(es, u) {
            let k = choose|k: int| 0 <= k < es.len() && es[k].uuid == u;
            if k < i {
                assert(rest[k] == es[k]);
                assert(has_entity_uuid(rest, u));
            } else if k > i {
                assert(rest[k - 1] == es[k]);
                assert(has_entity_uuid(rest, u));
            }
        }
        if has_entity_uuid(rest, u) {
            let m = choose|m: int| 0 <= m < rest.len() && rest[m].uuid == u;
            if m < i {
                assert(es[m] == rest[m]);
            } else {
                assert(es[m + 1] == rest[m]);
            }
            assert(has_entity_uuid(es, u));
        }
        if es[i].uuid == u {
            assert(has_entity_uuid(es, u));
        }
    }
}

/// Appending one entity extends the token witnesses by at most its token.
proof fn lemma_entity_uuid_push(es: Seq<EntityV>, e: EntityV)
    ensures
        forall|u: Seq<char>| #![trigger has_entity_uuid(es.push(e), u)]
            has_entity_uuid(es.push(e), u) == (has_entity_uuid(es, u) || e.uuid == u),
{
    let s2 = es.push(e);
    assert forall|u: Seq<char>|
        has_entity_uuid(s2, u) == (has_entity_uuid(es, u) || e.uuid == u) by {
        if has_entity_uuid(s2, u) {
            let k = choose|k: int| 0 <= k < s2.len() && s2[k].uuid == u;
            if k < es.len() {
                assert(es[k] == s2[k]);
                assert(has_entity_uuid(es, u));
            } else {
                assert(s2[k] == e);
            }
        }
        if has_entity_uuid(es, u) {
            let m = choose|m: int| 0 <= m < es.len() && es[m].uuid == u;
            assert(s2[m] == es[m]);
            assert(has_entity_uuid(s2, u));
        }
        if e.uuid == u {
            assert(s2[es.len() as int] == e);
            assert(has_entity_uuid(s2, u));
        }
    }
}

/// A sequence whose members all rank below the removal phase removes
/// nothing; one whose members all rank above the addition phase adds
/// nothing.
proof fn lemma_rank_excludes(cs: Seq<SchemaChangeV>)
    ensures
        (forall|k: int| 0 <= k < cs.len() ==> change_rank(#[trigger] cs[k]) != 2) ==> (forall|
            u: Seq<char>,
        | !(#[trigger] removes_uuid(cs, u))),
        (forall|k: int| 0 <= k < cs.len() ==> change_rank(#[trigger] cs[k]) != 0) ==> (forall|
            u: Seq<char>,
        | !(#[trigger] adds_uuid(cs, u))),
{
    if forall|k: int| 0 <= k < cs.len() ==> change_rank(#[trigger] cs[k]) != 2 {
        assert forall|u: Seq<char>| !(#[trigger] removes_uuid(cs, u)) by {
            if removes_uuid(cs, u) {
                let k = choose|k: int|
                    0 <= k < cs.len() && cs[k] == SchemaChangeV::RemoveEntity(u);
                assert(change_rank(cs[k]) == 2);
            }
        }
    }
    if forall|k: int| 0 <= k < cs.len() ==> change_rank(#[trigger] cs[k]) != 0 {
        assert forall|u: Seq<char>| !(#[trigger] adds_uuid(cs, u)) by {
            if adds_uuid(cs, u) {
                let k = choose|k: int|
                    0 <= k < cs.len() && (#[trigger] cs[k] matches SchemaChangeV::AddEntity(e)
                        && e.uuid == u);
                assert(change_rank(cs[k]) == 0);
            }
        }
    }
}

/// Removing one element moves each containment witness across the hole.
proof fn lemma_contains_shift(cs: Seq<SchemaChangeV>, i: int)
    requires
        0 <= i < cs.len(),
    ensures
        forall|c: SchemaChangeV| #![trigger cs.contains(c)]
            cs.contains(c) == (cs[i] == c || cs.remove(i).contains(c)),
{
    let rest = cs.remove(i);
    assert forall|c: SchemaChangeV| cs.contains(c) == (cs[i] == c || rest.contains(c)) by {
        if cs.contains(c) {
            let k = choose|k: int| 0 <= k < cs.len() && cs[k] == c;
            if k < i {
                assert(rest[k] == cs[k]);
                assert(rest.contains(c));
            } else if k > i {
                assert(rest[k - 1] == cs[k]);
                assert(rest.contains(c));
            }
        }
        if rest.contains(c) {
            let m = choose|m: int| 0 <= m < rest.len() && rest[m] == c;
            if m < i {
                assert(cs[m] == rest[m]);
            } else {
                assert(cs[m + 1] == rest[m]);
            }
            assert(cs.contains(c));
        }
        if cs[i] == c {
            assert(cs.contains(c));
        }
    }
}

/// Appending one change extends the containment witnesses by at most it.
proof fn lemma_contains_push(cs: Seq<SchemaChangeV>, x: SchemaChangeV)
    ensures
        forall|c: SchemaChangeV| #![trigger cs.push(x).contains(c)]
            cs.push(x).contains(c) == (cs.contains(c) || c == x),
{
    let s2 = cs.push(x);
    assert forall|c: SchemaChangeV| s2.contains(c) == (cs.contains(c) || c == x) by {
        if s2.contains(c) {
            let k = choose|k: int| 0 <= k < s2.len() && s2[k] == c;
            if k < cs.len() {
                assert(cs[k] == s2[k]);
                assert(cs.contains(c));
            } else {
                assert(s2[k] == x);
            }
        }
        if cs.contains(c) {
            let m = choose|m: int| 0 <= m < cs.len() && cs[m] == c;
            assert(s2[m] == cs[m]);
            assert(s2.contains(c));
        }
        if c == x {
            assert(s2[cs.len() as int] == x);
            assert(s2.contains(c));
        }
    }
}

/// Concatenation unions the containment witnesses.
proof fn lemma_contains_concat(a: Seq<SchemaChangeV>, b: Seq<SchemaChangeV>)
    ensures
        forall|c: SchemaChangeV| #![trigger (a + b).contains(c)]
            (a + b).contains(c) == (a.contains(c) || b.contains(c)),
{
    let s2 = a + b;
    assert forall|c: SchemaChangeV| s2.contains(c) == (a.contains(c) || b.contains(c)) by {
        if s2.contains(c) {
            let k = choose|k: int| 0 <= k < s2.len() && s2[k] == c;
            if k < a.len() {
                assert(a[k] == s2[k]);
                assert(a.contains(c));
            } else {
                assert(b[k - a.len()] == s2[k]);
                assert(b.contains(c));
            }
        }
        if a.contains(c) {
            let m = choose|m: int| 0 <= m < a.len() && a[m] == c;
            assert(s2[m] == a[m]);
            assert(s2.contains(c));
        }
        if b.contains(c) {
            let m = choose|m: int| 0 <= m < b.len() && b[m] == c;
            assert(s2[m + a.len()] == b[m]);
            assert(s2.contains(c));
        }
    }
}

/// Whether some change of the vector removes the identified entity.
fn list_removes_uuid(cs: &Vec<SchemaChange>, u: &String) -> (r: bool)
    ensures
        r == removes_uuid(cs.deep_view(), u@),
{
    let ghost csv = cs.deep_view();
    let mut i: usize = 0;
    while i < cs.len()
        invariant
            0 <= i <= cs.len(),
            csv == cs.deep_view(),
            csv.len() == cs.len(),
            forall|k: int| 0 <= k < i ==> csv[k] != SchemaChangeV::RemoveEntity(u@),
        decreases cs.len() - i,
    {
        match &cs[i] {
            SchemaChange::RemoveEntity(w) => {
                if *w == *u {
                    assert(csv[i as int] == SchemaChangeV::RemoveEntity(u@));
                    return true;
                }
            },
            _ => {},
        }
        assert(csv[i as int] != SchemaChangeV::RemoveEntity(u@));
        i = i + 1;
    }
    false
}

/// Whether some change of the vector drops the identified field of the
/// identified entity.
fn list_drops_field_exec(cs: &Vec<SchemaChange>, eu: &String, fid: u64) -> (r: bool)
    ensures
        r == list_drops_field(cs.deep_view(), eu@, fid),
{
    let ghost csv = cs.deep_view();
    let mut i: usize = 0;
    while i < cs.len()
        invariant
            0 <= i <= cs.len(),
            csv == cs.deep_view(),
            csv.len() == cs.len(),
            forall|k: int| 0 <= k < i ==> !change_drops_field(csv[k], eu@, fid),
        decreases cs.len() - i,
    {
        match &cs[i] {
            SchemaChange::ChangeEntity(w, fcs) => {
                if *w == *eu {
                    let ghost fcsv = fcs.deep_view();
                    proof {
                        assert(csv[i as int] == SchemaChangeV::ChangeEntity(eu@, fcsv));
                    }
                    let mut j: usize = 0;
                    while j < fcs.len()
                        invariant
                            0 <= j <= fcs.len(),
                            fcsv == fcs.deep_view(),
                            fcsv.len() == fcs.len(),
                            csv == cs.deep_view(),
                            0 <= i < csv.len(),
                            csv[i as int] == SchemaChangeV::ChangeEntity(eu@, fcsv),
                            forall|k: int| 0 <= k < j ==> !drops_field(fcsv[k], fid),
                        decreases fcs.len() - j,
                    {
                        let hit = match &fcs[j] {
                            crate::migrator::FieldChange::RemoveField(id) => *id == fid,
                            crate::migrator::FieldChange::ChangeType(id, _) => *id == fid,
                            _ => false,
                        };
                        if hit {
                            proof {
                                assert(drops_field(fcsv[j as int], fid));
                                let jj = j as int;
                                assert(0 <= jj < fcsv.len() && drops_field(fcsv[jj], fid));
                                assert(drops_some_field(fcsv, fid));
                                assert(change_drops_field(csv[i as int], eu@, fid));
                                assert(list_drops_field(csv, eu@, fid));
                            }
                            return true;
                        }
                        assert(!drops_field(fcsv[j as int], fid));
                        j = j + 1;
                    }
                    assert(!change_drops_field(csv[i as int], eu@, fid));
                } else {
                    assert(!change_drops_field(csv[i as int], eu@, fid));
                }
            },
            _ => {
                assert(!change_drops_field(csv[i as int], eu@, fid));
            },
        }
        i = i + 1;
    }
    false
}

/// Whether removing `u` is safe against the old snapshot; see `remove_safe`.
fn remove_is_safe(olds: &Vec<Entity>, cs: &Vec<SchemaChange>, u: &String) -> (r: bool)
    ensures
        r == remove_safe(olds.deep_view(), cs.deep_view(), u@),
{
    let ghost ov = olds.deep_view();
    let ghost csv = cs.deep_view();
    let mut i: usize = 0;
    while i < olds.len()
        invariant
            0 <= i <= olds.len(),
            ov == olds.deep_view(),
            csv == cs.deep_view(),
            ov.len() == olds.len(),
            forall|a: int, j: int, t: int|
                0 <= a < i && !removes_uuid(csv, ov[a].uuid) && 0 <= j < ov[a].fields.len() && 0
                    <= t < field_targets(ov[a].fields[j].kind).len() && field_targets(
                    ov[a].fields[j].kind,
                )[t] == u@ ==> list_drops_field(csv, ov[a].uuid, ov[a].fields[j].id),
        decreases olds.len() - i,
    {
        let e = &olds[i];
        if !list_removes_uuid(cs, &e.uuid) {
            let fields = e.get_fields();
            let ghost fvs = ov[i as int].fields;
            assert(fvs == fields.deep_view());
            assert(e.uuid@ == ov[i as int].uuid);
            let mut j: usize = 0;
            while j < fields.len()
                invariant
                    0 <= j <= fields.len(),
                    ov == olds.deep_view(),
                    csv == cs.deep_view(),
                    ov.len() == olds.len(),
                    0 <= i < olds.len(),
                    fvs == ov[i as int].fields,
                    fvs.len() == fields.len(),
                    fields.deep_view() == fvs,
                    e.uuid@ == ov[i as int].uuid,
                    !removes_uuid(csv, ov[i as int].uuid),
                    forall|b: int, t: int|
                        0 <= b < j && 0 <= t < field_targets(fvs[b].kind).len() && field_targets(
                            fvs[b].kind,
                        )[t] == u@ ==> list_drops_field(csv, ov[i as int].uuid, fvs[b].id),
                decreases fields.len() - j,
            {
                let ghost ts = field_targets(fvs[j as int].kind);
                let targeted = match &fields[j].kind {
                    EntityFieldType::RELATION { target } => {
                        let b = *target == *u;
                        proof {
                            assert(ts == seq![target@]);
                            if b {
                                assert(ts[0] == u@);
                                assert(exists|t: int| 0 <= t < ts.len() && ts[t] == u@);
                            } else {
                                assert(forall|t: int| 0 <= t < ts.len() ==> ts[t] != u@);
                            }
                        }
                        b
                    },
                    EntityFieldType::RELATION_MANY { targets } => {
                        assert(ts == targets.deep_view());
                        let mut hit = false;
                        let mut t: usize = 0;
                        while t < targets.len()
                            invariant
                                0 <= t <= targets.len(),
                                ts == targets.deep_view(),
                                ts.len() == targets.len(),
                                hit ==> exists|w: int| 0 <= w < ts.len() && ts[w] == u@,
                                !hit ==> forall|w: int| 0 <= w < t ==> ts[w] != u@,
                            decreases targets.len() - t,
                        {
                            if targets[t] == *u {
                                proof {
                                    assert(ts[t as int] == u@);
                                }
                                hit = true;
                            }
                            t = t + 1;
                        }
                        hit
                    },
                    _ => {
                        proof {
                            assert(ts.len() == 0);
                        }
                        false
                    },
                };
                if targeted {
                    proof {
                        assert(exists|t: int| 0 <= t < ts.len() && ts[t] == u@);
                    }
                    if !list_drops_field_exec(cs, &e.uuid, fields[j].id) {
                        proof {
                            let ii = i as int;
                            let jj = j as int;
                            assert(fields[jj].id == fvs[jj].id);
                            assert(!list_drops_field(csv, ov[ii].uuid, ov[ii].fields[jj].id));
                            assert(!remove_safe(ov, csv, u@));
                        }
                        return false;
                    }
                    assert(list_drops_field(csv, ov[i as int].uuid, fvs[j as int].id));
                } else {
                    proof {
                        assert(forall|t: int| 0 <= t < ts.len() ==> ts[t] != u@);
                    }
                }
                j = j + 1;
            }
        } else {
            assert(removes_uuid(csv, ov[i as int].uuid));
        }
        i = i + 1;
    }
    true
}

/// Whether any removal of the list is unsafe; see `dangling_removal`.
fn any_dangling_removal(olds: &Vec<Entity>, cs: &Vec<SchemaChange>) -> (r: bool)
    ensures
        r == dangling_removal(olds.deep_view(), cs.deep_view()),
{
    let ghost ov = olds.deep_view();
    let ghost csv = cs.deep_view();
    let mut i: usize = 0;
    while i < cs.len()
        invariant
            0 <= i <= cs.len(),
            ov == olds.deep_view(),
            csv == cs.deep_view(),
            csv.len() == cs.len(),
            forall|k: int|
                0 <= k < i ==> !(#[trigger] csv[k] matches SchemaChangeV::RemoveEntity(u)
                    && !remove_safe(ov, csv, u)),
        decreases cs.len() - i,
    {
        match &cs[i] {
            SchemaChange::RemoveEntity(u) => {
                if !remove_is_safe(olds, cs, u) {
                    proof {
                        assert(csv[i as int] matches SchemaChangeV::RemoveEntity(w) && w == u@);
                        assert(dangling_removal(ov, csv));
                    }
                    return true;
                }
            },
            _ => {},
        }
        i = i + 1;
    }
    false
}

/// Whether the field type points at any of the given identity tokens.
fn targets_any(k: &EntityFieldType, uuids: &Vec<String>) -> (r: bool)
    ensures
        r == exists|t: int, m: int|
            0 <= t < (#[trigger] field_targets(k.deep_view())).len() && 0 <= m
                < uuids.deep_view().len() && field_targets(k.deep_view())[t]
                == uuids.deep_view()[m],
{
    let ghost kv = k.deep_view();
    let ghost us = uuids.deep_view();
    match k {
        EntityFieldType::RELATION { target } => {
            proof {
                assert(field_targets(kv) == seq![target@]);
            }
            let mut i: usize = 0;
            while i < uuids.len()
                invariant
                    0 <= i <= uuids.len(),
                    kv == k.deep_view(),
                    us == uuids.deep_view(),
                    us.len() == uuids.len(),
                    field_targets(kv) == seq![target@],
                    forall|m: int| 0 <= m < i ==> us[m] != target@,
                decreases uuids.len() - i,
            {
                if uuids[i] == *target {
                    proof {
                        assert(us[i as int] == target@);
                        assert(field_targets(kv)[0] == target@);
                    }
                    return true;
                }
                assert(us[i as int] != target@);
                i = i + 1;
            }
            false
        },
        EntityFieldType::RELATION_MANY { targets } => {
            let ghost ts = targets.deep_view();
            proof {
                assert(field_targets(kv) == ts);
            }
            let mut t: usize = 0;
            while t < targets.len()
                invariant
                    0 <= t <= targets.len(),
                    kv == k.deep_view(),
                    us == uuids.deep_view(),
                    us.len() == uuids.len(),
                    ts == targets.deep_view(),
                    ts.len() == targets.len(),
                    field_targets(kv) == ts,
                    forall|a: int, m: int| 0 <= a < t && 0 <= m < us.len() ==> ts[a] != us[m],
                decreases targets.len() - t,
            {
                let mut i: usize = 0;
                while i < uuids.len()
                    invariant
                        0 <= i <= uuids.len(),
                        0 <= t < targets.len(),
                        kv == k.deep_view(),
                        us == uuids.deep_view(),
                        us.len() == uuids.len(),
                        ts == targets.deep_view(),
                        ts.len() == targets.len(),
                        field_targets(kv) == ts,
                        forall|m: int| 0 <= m < i ==> ts[t as int] != us[m],
                    decreases uuids.len() - i,
                {
                    if uuids[i] == targets[t] {
                        proof {
                            assert(ts[t as int] == us[i as int]);
                        }
                        return true;
                    }
                    assert(ts[t as int] != us[i as int]);
                    i = i + 1;
                }
                t = t + 1;
            }
            false
        },
        _ => {
            proof {
                assert(field_targets(kv).len() == 0);
            }
            false
        },
    }
}

/// Whether an entity of the batch has a relation field pointing at any other
/// batch member.
fn entity_targets_pending(e: &Entity, pending: &Vec<Entity>) -> bool {
    let mut uuids: Vec<String> = Vec::new();
    let mut i: usize = 0;
    while i < pending.len()
        decreases pending.len() - i,
    {
        uuids.push(pending[i].uuid.clone());
        i = i + 1;
    }
    let fields = e.get_fields();
    let mut j: usize = 0;
    while j < fields.len()
        decreases fields.len() - j,
    {
        if targets_any(&fields[j].kind, &uuids) {
            return true;
        }
        j = j + 1;
    }
    false
}

/// The position of the first batch member with no relation field pointing at
/// another batch member.
fn find_free_addition(pending: &Vec<Entity>) -> (r: Option<usize>)
    ensures
        r matches Some(i) ==> 0 <= i < pending.len(),
{
    let mut i: usize = 0;
    while i < pending.len()
        decreases pending.len() - i,
    {
        if !entity_targets_pending(&pending[i], pending) {
            return Some(i);
        }
        i = i + 1;
    }
    None
}

/// Whether some other pending removal's entity holds a relation field
/// pointing at `u`.
fn referenced_by_pending(olds: &Vec<Entity>, pending: &Vec<String>, u: &String) -> (r: bool)
    ensures
        r == blocked_in(olds.deep_view(), pending.deep_view(), u@),
{
    let ghost ov = olds.deep_view();
    let ghost pv = pending.deep_view();
    let mut single: Vec<String> = Vec::new();
    single.push(u.clone());
    let ghost sv = single.deep_view();
    proof {
        assert(sv =~= seq![u@]);
    }
    let mut i: usize = 0;
    while i < pending.len()
        invariant
            0 <= i <= pending.len(),
            ov == olds.deep_view(),
            pv == pending.deep_view(),
            pv.len() == pending.len(),
            sv == single.deep_view(),
            sv =~= seq![u@],
            single.len() == 1,
            forall|k: int| 0 <= k < i ==> !(pv[k] != u@ && references(ov, pv[k], u@)),
        decreases pending.len() - i,
    {
        if pending[i] != *u {
            match crate::migrator::find_entity_ref(olds, &pending[i]) {
                Some(e) => {
                    let ghost ev = e.deep_view();
                    proof {
                        assert(find_entity(ov, pv[i as int]) == Some(ev));
                    }
                    let fields = e.get_fields();
                    let ghost fvs = ev.fields;
                    assert(fvs == fields.deep_view());
                    let mut j: usize = 0;
                    while j < fields.len()
                        invariant
                            0 <= j <= fields.len(),
                            ov == olds.deep_view(),
                            pv == pending.deep_view(),
                            pv.len() == pending.len(),
                            0 <= i < pending.len(),
                            sv == single.deep_view(),
                            sv =~= seq![u@],
                            fvs == ev.fields,
                            fvs.len() == fields.len(),
                            fields.deep_view() == fvs,
                            find_entity(ov, pv[i as int]) == Some(ev),
                            pv[i as int] != u@,
                            forall|b: int, t: int|
                                0 <= b < j && 0 <= t < field_targets(fvs[b].kind).len()
                                    ==> field_targets(fvs[b].kind)[t] != u@,
                        decreases fields.len() - j,
                    {
                        if targets_any(&fields[j].kind, &single) {
                            proof {
                                let (t, m) = choose|t: int, m: int|
                                    0 <= t < field_targets(fvs[j as int].kind).len() && 0 <= m
                                        < sv.len() && field_targets(fvs[j as int].kind)[t]
                                        == sv[m];
                                assert(sv[m] == u@);
                                assert(entity_references(ev, u@));
                                assert(references(ov, pv[i as int], u@));
                                assert(blocked_in(ov, pv, u@));
                            }
                            return true;
                        }
                        proof {
                            assert forall|t: int|
                                0 <= t < field_targets(fvs[j as int].kind).len() implies
                                field_targets(fvs[j as int].kind)[t] != u@ by {
                                assert(sv[0] == u@);
                            }
                        }
                        j = j + 1;
                    }
                    proof {
                        assert(!entity_references(ev, u@));
                        assert(!references(ov, pv[i as int], u@));
                    }
                },
                None => {
                    proof {
                        assert(!references(ov, pv[i as int], u@));
                    }
                },
            }
        } else {
            assert(pv[i as int] == u@);
        }
        i = i + 1;
    }
    proof {
        assert(!blocked_in(ov, pv, u@));
    }
    false
}

/// The position of the first pending removal at which no other pending
/// removal's entity still points.
fn find_free_removal(olds: &Vec<Entity>, pending: &Vec<String>) -> (r: Option<usize>)
    ensures
        match r {
            Some(i) => 0 <= i < pending.deep_view().len() && !blocked_in(
                olds.deep_view(),
                pending.deep_view(),
                pending.deep_view()[i as int],
            ),
            None => forall|k: int|
                0 <= k < pending.deep_view().len() ==> blocked_in(
                    olds.deep_view(),
                    pending.deep_view(),
                    #[trigger] pending.deep_view()[k],
                ),
        },
{
    let ghost pv = pending.deep_view();
    let mut i: usize = 0;
    while i < pending.len()
        invariant
            0 <= i <= pending.len(),
            pv == pending.deep_view(),
            pv.len() == pending.len(),
            forall|k: int| 0 <= k < i ==> blocked_in(olds.deep_view(), pv, #[trigger] pv[k]),
        decreases pending.len() - i,
    {
        if !referenced_by_pending(olds, pending, &pending[i]) {
            return Some(i);
        }
        assert(blocked_in(olds.deep_view(), pv, pv[i as int]));
        i = i + 1;
    }
    None
}

/// Reorders a change list so that it can be applied one change at a time
/// without transiently breaking referential integrity, against the old
/// snapshot the list was computed from.
///
/// Additions come first, ordered so that an added entity follows the added
/// entities its relation fields point at; when added entities reference each
/// other in a cycle, each is created without the offending relation fields,
/// which follow as separate field additions. Field-level changes and renames
/// keep their order in the middle. Removals come last, ordered so that a
/// removed entity precedes the removed entities it points at.
///
/// The ordering fails in exactly two situations: a removal at which a
/// surviving relation field still points, with no change dropping that field
/// (no order could apply it safely), and a reference cycle among the
/// removals themselves. A successful result is phase-ordered, at least as
/// long as the input, and removes and adds exactly the entity identities the
/// input removes and adds.
pub fn sort_changes(old_entities: &Vec<Entity>, changes: Vec<SchemaChange>) -> (r: Result<
    Vec<SchemaChange>,
    SortError,
>)
    ensures
        dangling_removal(old_entities.deep_view(), changes.deep_view()) ==> r is Err,
        r is Err ==> dangling_removal(old_entities.deep_view(), changes.deep_view())
            || removal_cycle(old_entities.deep_view(), changes.deep_view()),
        !dangling_removal(old_entities.deep_view(), changes.deep_view()) && !removal_cycle(
            old_entities.deep_view(),
            changes.deep_view(),
        ) ==> r is Ok,
        r matches Ok(out) ==> phase_ordered(out.deep_view()),
        r matches Ok(out) ==> out.deep_view().len() >= changes.deep_view().len(),
        r matches Ok(out) ==> forall|u: Seq<char>| #![trigger removes_uuid(out.deep_view(), u)]
            removes_uuid(out.deep_view(), u) == removes_uuid(changes.deep_view(), u),
        r matches Ok(out) ==> forall|u: Seq<char>| #![trigger adds_uuid(out.deep_view(), u)]
            adds_uuid(out.deep_view(), u) == adds_uuid(changes.deep_view(), u),
        r matches Ok(out) ==> forall|c: SchemaChangeV|
            #![trigger changes.deep_view().contains(c)]
            changes.deep_view().contains(c) && change_rank(c) == 1 ==> out.deep_view().contains(
                c,
            ),
{
    let ghost oldsv = old_entities.deep_view();
    let ghost csv0 = changes.deep_view();
    if any_dangling_removal(old_entities, &changes) {
        return Err(SortError::UnresolvedReference);
    }
    let mut rest = changes;
    let mut add_pending: Vec<Entity> = Vec::new();
    let mut middle: Vec<SchemaChange> = Vec::new();
    let mut remove_pending: Vec<String> = Vec::new();
    proof {
        assert(rest.deep_view() == csv0);
    }
    while rest.len() > 0
        invariant
            csv0 == changes.deep_view(),
            forall|k: int| 0 <= k < middle.deep_view().len() ==> change_rank(
                #[trigger] middle.deep_view()[k],
            ) == 1,
            add_pending.len() + middle.len() + remove_pending.len() + rest.len() == csv0.len(),
            forall|u: Seq<char>| #![trigger removes_uuid(csv0, u)]
                removes_uuid(csv0, u) == (token_in(remove_pending.deep_view(), u)
                    || removes_uuid(rest.deep_view(), u)),
            forall|u: Seq<char>| #![trigger adds_uuid(csv0, u)]
                adds_uuid(csv0, u) == (has_entity_uuid(add_pending.deep_view(), u) || adds_uuid(
                    rest.deep_view(),
                    u,
                )),
            forall|c: SchemaChangeV| #![trigger csv0.contains(c)]
                csv0.contains(c) && change_rank(c) == 1 ==> middle.deep_view().contains(c)
                    || rest.deep_view().contains(c),
        decreases rest.len(),
    {
        let ghost old_restv = rest.deep_view();
        let ghost old_rpv = remove_pending.deep_view();
        let ghost old_apv = add_pending.deep_view();
        let c = rest.remove(0);
        let ghost cv = c.deep_view();
        proof {
            assert(cv == old_restv[0]);
            assert(rest.deep_view() =~= old_restv.remove(0));
            lemma_removes_uuid_shift(old_restv, 0);
            lemma_adds_uuid_shift(old_restv, 0);
            lemma_contains_shift(old_restv, 0);
        }
        match c {
            SchemaChange::AddEntity(e) => {
                let ghost ev = e.deep_view();
                add_pending.push(e);
                proof {
                    assert(cv == SchemaChangeV::AddEntity(ev));
                    assert(add_pending.deep_view() =~= old_apv.push(ev));
                    lemma_entity_uuid_push(old_apv, ev);
                    assert forall|u: Seq<char>|
                        removes_uuid(csv0, u) == (token_in(remove_pending.deep_view(), u)
                            || removes_uuid(rest.deep_view(), u)) by {
                        assert(old_restv[0] != SchemaChangeV::RemoveEntity(u));
                    }
                }
            },
            SchemaChange::RemoveEntity(u) => {
                let ghost uv = u@;
                remove_pending.push(u);
                proof {
                    assert(cv == SchemaChangeV::RemoveEntity(uv));
                    assert(remove_pending.deep_view() =~= old_rpv.push(uv));
                    lemma_token_in_push(old_rpv, uv);
                    assert forall|x: Seq<char>|
                        adds_uuid(csv0, x) == (has_entity_uuid(add_pending.deep_view(), x)
                            || adds_uuid(rest.deep_view(), x)) by {
                        assert(!(old_restv[0] matches SchemaChangeV::AddEntity(e) && e.uuid
                            == x));
                    }
                }
            },
            other => {
                let ghost pre = middle.deep_view();
                middle.push(other);
                proof {
                    assert(change_rank(cv) == 1);
                    assert(middle.deep_view() =~= pre.push(cv));
                    lemma_contains_push(pre, cv);
                    assert forall|k: int|
                        0 <= k < middle.deep_view().len() implies change_rank(
                        #[trigger] middle.deep_view()[k],
                    ) == 1 by {
                        if k < pre.len() {
                            assert(middle.deep_view()[k] == pre[k]);
                        } else {
                            assert(middle.deep_view()[k] == cv);
                        }
                    }
                    assert forall|u: Seq<char>|
                        removes_uuid(csv0, u) == (token_in(remove_pending.deep_view(), u)
                            || removes_uuid(rest.deep_view(), u)) by {
                        assert(old_restv[0] != SchemaChangeV::RemoveEntity(u));
                    }
                    assert forall|x: Seq<char>|
                        adds_uuid(csv0, x) == (has_entity_uuid(add_pending.deep_view(), x)
                            || adds_uuid(rest.deep_view(), x)) by {
                        assert(!(old_restv[0] matches SchemaChangeV::AddEntity(e) && e.uuid
                            == x));
                    }
                }
            },
        }
    }
    let ghost n_adds0 = add_pending.deep_view().len();
    let ghost n_mids = middle.deep_view().len();
    let ghost n_removes0 = remove_pending.deep_view().len();
    proof {
        assert(n_adds0 + n_mids + n_removes0 == csv0.len());
    }
    let mut out: Vec<SchemaChange> = Vec::new();
    while add_pending.len() > 0
        invariant
            csv0 == changes.deep_view(),
            forall|k: int| 0 <= k < out.deep_view().len() ==> change_rank(
                #[trigger] out.deep_view()[k],
            ) == 0,
            out.deep_view().len() + add_pending.deep_view().len() == n_adds0,
            forall|u: Seq<char>| #![trigger adds_uuid(csv0, u)]
                adds_uuid(csv0, u) == (has_entity_uuid(add_pending.deep_view(), u) || adds_uuid(
                    out.deep_view(),
                    u,
                )),
        decreases add_pending.len(),
    {
        match find_free_addition(&add_pending) {
            Some(i) => {
                let ghost old_apv = add_pending.deep_view();
                let ghost pre = out.deep_view();
                let e = add_pending.remove(i);
                let ghost ev = e.deep_view();
                out.push(SchemaChange::AddEntity(e));
                proof {
                    assert(ev == old_apv[i as int]);
                    assert(add_pending.deep_view() =~= old_apv.remove(i as int));
                    lemma_entity_uuid_shift(old_apv, i as int);
                    assert(out.deep_view() =~= pre.push(SchemaChangeV::AddEntity(ev)));
                    lemma_adds_uuid_push(pre, SchemaChangeV::AddEntity(ev));
                    assert forall|k: int|
                        0 <= k < out.deep_view().len() implies change_rank(
                        #[trigger] out.deep_view()[k],
                    ) == 0 by {
                        if k < pre.len() {
                            assert(out.deep_view()[k] == pre[k]);
                        } else {
                            assert(out.deep_view()[k] == SchemaChangeV::AddEntity(ev));
                        }
                    }
                }
            },
            None => {
                break;
            },
        }
    }
    let mut fixes: Vec<SchemaChange> = Vec::new();
    if add_pending.len() > 0 {
        let mut batch_uuids: Vec<String> = Vec::new();
        let mut i: usize = 0;
        while i < add_pending.len()
            decreases add_pending.len() - i,
        {
            batch_uuids.push(add_pending[i].uuid.clone());
            i = i + 1;
        }
        while add_pending.len() > 0
            invariant
                csv0 == changes.deep_view(),
                forall|k: int| 0 <= k < out.deep_view().len() ==> change_rank(
                    #[trigger] out.deep_view()[k],
                ) == 0,
                forall|k: int| 0 <= k < fixes.deep_view().len() ==> change_rank(
                    #[trigger] fixes.deep_view()[k],
                ) == 1,
                out.deep_view().len() + add_pending.deep_view().len() == n_adds0,
                forall|u: Seq<char>| #![trigger adds_uuid(csv0, u)]
                    adds_uuid(csv0, u) == (has_entity_uuid(add_pending.deep_view(), u)
                        || adds_uuid(out.deep_view(), u)),
            decreases add_pending.len(),
        {
            let ghost old_apv = add_pending.deep_view();
            let mut e = add_pending.remove(0);
            let ghost ev0 = e.deep_view();
            proof {
                assert(ev0 == old_apv[0]);
                assert(add_pending.deep_view() =~= old_apv.remove(0));
                lemma_entity_uuid_shift(old_apv, 0);
            }
            let uuid = e.uuid.clone();
            let mut kept: Vec<EntityField> = Vec::new();
            let mut dropped: Vec<EntityField> = Vec::new();
            let mut fields = e.fields;
            e.fields = Vec::new();
            while fields.len() > 0
                decreases fields.len(),
            {
                let f = fields.remove(0);
                if targets_any(&f.kind, &batch_uuids) {
                    dropped.push(f);
                } else {
                    kept.push(f);
                }
            }
            e.fields = kept;
            let ghost ev = e.deep_view();
            proof {
                assert(ev.uuid == ev0.uuid);
            }
            let ghost pre = out.deep_view();
            out.push(SchemaChange::AddEntity(e));
            proof {
                assert(out.deep_view() =~= pre.push(SchemaChangeV::AddEntity(ev)));
                lemma_adds_uuid_push(pre, SchemaChangeV::AddEntity(ev));
                assert forall|k: int|
                    0 <= k < out.deep_view().len() implies change_rank(
                    #[trigger] out.deep_view()[k],
                ) == 0 by {
                    if k < pre.len() {
                        assert(out.deep_view()[k] == pre[k]);
                    } else {
                        assert(out.deep_view()[k] == SchemaChangeV::AddEntity(ev));
                    }
                }
            }
            if dropped.len() > 0 {
                let mut fcs: Vec<crate::migrator::FieldChange> = Vec::new();
                while dropped.len() > 0
                    decreases dropped.len(),
                {
                    let f = dropped.remove(0);
                    fcs.push(crate::migrator::FieldChange::AddField(f));
                }
                let ghost prefix = fixes.deep_view();
                fixes.push(SchemaChange::ChangeEntity(uuid, fcs));
                proof {
                    assert forall|k: int|
                        0 <= k < fixes.deep_view().len() implies change_rank(
                        #[trigger] fixes.deep_view()[k],
                    ) == 1 by {
                        if k < prefix.len() {
                            assert(fixes.deep_view()[k] == prefix[k]);
                        }
                    }
                }
            }
        }
    }
    let ghost adds_v = out.deep_view();
    let ghost fixes_v = fixes.deep_view();
    proof {
        assert(add_pending.deep_view().len() == 0);
        assert(adds_v.len() == n_adds0);
        assert forall|u: Seq<char>| adds_uuid(csv0, u) == adds_uuid(adds_v, u) by {
            assert(!has_entity_uuid(add_pending.deep_view(), u));
        }
    }
    let mut fixes_in = fixes;
    out.append(&mut fixes_in);
    proof {
        assert(out.deep_view() =~= adds_v + fixes_v);
    }
    let ghost mids_v = middle.deep_view();
    let mut middle_in = middle;
    out.append(&mut middle_in);
    proof {
        assert(out.deep_view() =~= adds_v + fixes_v + mids_v);
    }
    let mut removes: Vec<SchemaChange> = Vec::new();
    while remove_pending.len() > 0
        invariant
            csv0 == changes.deep_view(),
            oldsv == old_entities.deep_view(),
            forall|k: int| 0 <= k < removes.deep_view().len() ==> change_rank(
                #[trigger] removes.deep_view()[k],
            ) == 2,
            removes.deep_view().len() + remove_pending.deep_view().len() == n_removes0,
            forall|u: Seq<char>| #![trigger removes_uuid(csv0, u)]
                removes_uuid(csv0, u) == (token_in(remove_pending.deep_view(), u)
                    || removes_uuid(removes.deep_view(), u)),
        decreases remove_pending.len(),
    {
        match find_free_removal(old_entities, &remove_pending) {
            Some(i) => {
                let ghost old_rpv = remove_pending.deep_view();
                let ghost pre = removes.deep_view();
                let u = remove_pending.remove(i);
                let ghost uv = u@;
                removes.push(SchemaChange::RemoveEntity(u));
                proof {
                    assert(uv == old_rpv[i as int]);
                    assert(remove_pending.deep_view() =~= old_rpv.remove(i as int));
                    lemma_token_in_shift(old_rpv, i as int);
                    assert(removes.deep_view() =~= pre.push(SchemaChangeV::RemoveEntity(uv)));
                    lemma_removes_uuid_push(pre, SchemaChangeV::RemoveEntity(uv));
                    assert forall|k: int|
                        0 <= k < removes.deep_view().len() implies change_rank(
                        #[trigger] removes.deep_view()[k],
                    ) == 2 by {
                        if k < pre.len() {
                            assert(removes.deep_view()[k] == pre[k]);
                        } else {
                            assert(removes.deep_view()[k] == SchemaChangeV::RemoveEntity(uv));
                        }
                    }
                }
            },
            None => {
                proof {
                    let s = remove_pending.deep_view();
                    assert(s.len() > 0);
                    assert forall|k: int| 0 <= k < s.len() implies removes_uuid(
                        csv0,
                        #[trigger] s[k],
                    ) by {
                        assert(token_in(s, s[k]));
                    }
                    assert(all_blocked(oldsv, csv0, s));
                    assert(removal_cycle(oldsv, csv0));
                }
                return Err(SortError::CyclicDependency);
            },
        }
    }
    let ghost rem_v = removes.deep_view();
    proof {
        assert(remove_pending.deep_view().len() == 0);
        assert(rem_v.len() == n_removes0);
        assert forall|u: Seq<char>| removes_uuid(csv0, u) == removes_uuid(rem_v, u) by {
            assert(!token_in(remove_pending.deep_view(), u));
        }
    }
    let mut removes_in = removes;
    out.append(&mut removes_in);
    proof {
        let whole = out.deep_view();
        assert(whole =~= adds_v + fixes_v + mids_v + rem_v);
        let a = adds_v.len() as int;
        let b = fixes_v.len() as int;
        let c = mids_v.len() as int;
        let d = rem_v.len() as int;
        assert forall|i: int, j: int|
            0 <= i < j < whole.len() implies change_rank(whole[i]) <= change_rank(whole[j]) by {
            assert(change_rank(whole[i]) == (if i < a {
                0int
            } else if i < a + b {
                1int
            } else if i < a + b + c {
                1int
            } else {
                2int
            }));
            assert(change_rank(whole[j]) == (if j < a {
                0int
            } else if j < a + b {
                1int
            } else if j < a + b + c {
                1int
            } else {
                2int
            }));
        }
        assert(phase_ordered(whole));
        assert(whole.len() == a + b + c + d);
        assert(whole.len() >= csv0.len());
        lemma_removes_uuid_concat(adds_v + fixes_v + mids_v, rem_v);
        lemma_removes_uuid_concat(adds_v + fixes_v, mids_v);
        lemma_removes_uuid_concat(adds_v, fixes_v);
        lemma_adds_uuid_concat(adds_v + fixes_v + mids_v, rem_v);
        lemma_adds_uuid_concat(adds_v + fixes_v, mids_v);
        lemma_adds_uuid_concat(adds_v, fixes_v);
        lemma_rank_excludes(adds_v);
        lemma_rank_excludes(fixes_v);
        lemma_rank_excludes(mids_v);
        lemma_rank_excludes(rem_v);
        lemma_contains_concat(adds_v + fixes_v + mids_v, rem_v);
        lemma_contains_concat(adds_v + fixes_v, mids_v);
        assert forall|c: SchemaChangeV| #![trigger csv0.contains(c)]
            csv0.contains(c) && change_rank(c) == 1 implies whole.contains(c) by {
            assert(mids_v.contains(c));
            assert((adds_v + fixes_v + mids_v).contains(c));
        }
        assert forall|u: Seq<char>| #![trigger removes_uuid(whole, u)]
            removes_uuid(whole, u) == removes_uuid(csv0, u) by {
            assert(!removes_uuid(adds_v, u));
            assert(!removes_uuid(fixes_v, u));
            assert(!removes_uuid(mids_v, u));
        }
        assert forall|u: Seq<char>| #![trigger adds_uuid(whole, u)]
            adds_uuid(whole, u) == adds_uuid(csv0, u) by {
            assert(!adds_uuid(fixes_v, u));
            assert(!adds_uuid(mids_v, u));
            assert(!adds_uuid(rem_v, u));
        }
    }
    Ok(out)
}

} // verus!
