use qbase::migrator::{CompareError, FieldChange, SchemaChange, SchemaComparator};
use qbase::schema::{
    clone_entity, DTOField, Entity, EntityField, EntityFieldType, EntityType, Schema,
    SchemaSettings, Version, DTO,
};
use qbase::sorter::{sort_changes, SortError};
use qbase::store::{MemoryStore, MigrateError, Migrator};

fn make_schema(version: Version, entities: Vec<Entity>) -> Schema {
    Schema::new(version, entities, SchemaSettings {}).unwrap()
}

fn email_field() -> EntityField {
    EntityField::new(
        "email",
        false,
        false,
        false,
        EntityFieldType::TEXT {
            min: 3,
            max: 120,
            validate: String::from("^.+@.+$"),
            generate: String::new(),
        },
    )
}

#[test]
fn version_order_is_lexicographic() {
    let a = Version::new(1, 2, 3);
    assert!(a.precedes(&Version::new(2, 0, 0)));
    assert!(a.precedes(&Version::new(1, 3, 0)));
    assert!(a.precedes(&Version::new(1, 2, 4)));
    assert!(!a.precedes(&Version::new(1, 2, 3)));
    assert!(!a.precedes(&Version::new(0, 9, 9)));
}

#[test]
fn default_schema_has_users_with_base_fields() {
    let schema = Schema::default_schema().unwrap();
    assert_eq!(*schema.get_version(), Version::new(0, 1, 0));
    let entities = schema.get_entities();
    assert_eq!(entities.len(), 1);
    let users = &entities[0];
    assert_eq!(users.name, "Users");
    assert_eq!(users.kind, EntityType::AUTH);
    assert_eq!(users.uuid.len(), 32);
    let fields = users.get_fields();
    assert_eq!(fields.len(), 3);
    assert_eq!(fields[0].name, "id");
    assert!(fields[0].primary_key);
    assert!(fields[0].base);
    assert_eq!(fields[1].name, "created");
    assert_eq!(fields[2].name, "updated");
    match &fields[1].kind {
        EntityFieldType::DATE { min_date, max_date } => assert!(min_date < max_date),
        _ => panic!("created is not a date field"),
    }
}

#[test]
fn lookup_by_name_is_case_insensitive() {
    let schema = Schema::default_schema().unwrap();
    let found = schema.get_entity_by_name(String::from("users"));
    assert!(found.is_some());
    assert_eq!(found.unwrap().name, "Users");
    let found = schema.get_entity_by_name(String::from("Users"));
    assert!(found.is_some());
    assert_eq!(found.unwrap().name, "Users");
    let found = schema.get_entity_by_name(String::from("USERS"));
    assert!(found.is_some());
    assert_eq!(found.unwrap().name, "Users");
    assert!(schema.get_entity_by_name(String::from("nobody")).is_none());
}

#[test]
fn schema_rejects_entity_with_two_primary_keys() {
    // bypass the entity constructors through the public fields to hand the
    // schema a corrupt entity
    let mut e = Entity::new("Things", EntityType::DATA);
    e.fields.push(EntityField {
        id: 99,
        name: String::from("extra"),
        nullable: false,
        base: false,
        primary_key: true,
        kind: EntityFieldType::TEXT {
            min: 1,
            max: 10,
            validate: String::new(),
            generate: String::new(),
        },
    });
    assert!(Schema::new(Version::new(1, 0, 0), vec![e], SchemaSettings {}).is_err());
}

#[test]
fn schema_rejects_entity_with_duplicate_field_names() {
    let mut e = Entity::new("Things", EntityType::DATA);
    e.fields.push(EntityField {
        id: 99,
        name: String::from("id"),
        nullable: true,
        base: false,
        primary_key: false,
        kind: EntityFieldType::BOOL,
    });
    assert!(Schema::new(Version::new(1, 0, 0), vec![e], SchemaSettings {}).is_err());
}

#[test]
fn fresh_identities_differ() {
    let a = Entity::new("One", EntityType::DATA);
    let b = Entity::new("Two", EntityType::DATA);
    assert_eq!(a.uuid.len(), 32);
    assert_eq!(b.uuid.len(), 32);
    assert_ne!(a.uuid, b.uuid);
}

#[test]
fn add_field_rejects_duplicate_name_and_second_primary_key() {
    let mut e = Entity::new("Things", EntityType::DATA);
    assert!(e.add_field(email_field()).is_ok());
    assert!(e.add_field(email_field()).is_err());
    let pk = EntityField::new(
        "code",
        false,
        false,
        true,
        EntityFieldType::TEXT {
            min: 1,
            max: 10,
            validate: String::new(),
            generate: String::new(),
        },
    );
    assert!(e.add_field(pk).is_err());
    assert_eq!(e.get_fields().len(), 4);
}

#[test]
fn schema_rejects_case_insensitive_name_collision() {
    let a = Entity::new("Users", EntityType::AUTH);
    let b = Entity::new("users", EntityType::DATA);
    assert!(Schema::new(Version::new(1, 0, 0), vec![a, b], SchemaSettings {}).is_err());
}

#[test]
fn schema_rejects_dangling_relation() {
    let mut posts = Entity::new("Posts", EntityType::DATA);
    let rel = EntityField::new(
        "author",
        false,
        false,
        false,
        EntityFieldType::RELATION { target: String::from("missingidentity") },
    );
    assert!(posts.add_field(rel).is_ok());
    assert!(Schema::new(Version::new(1, 0, 0), vec![posts], SchemaSettings {}).is_err());
}

#[test]
fn compare_equal_snapshots_yields_no_change() {
    let users = Entity::new("Users", EntityType::AUTH);
    let a = make_schema(Version::new(1, 0, 0), vec![clone_entity(&users)]);
    let b = make_schema(Version::new(1, 1, 0), vec![users]);
    let comparator = SchemaComparator {};
    let changes = comparator.compare(&a, &b).unwrap();
    assert_eq!(changes.len(), 0);
}

#[test]
fn compare_requires_version_to_advance() {
    let users = Entity::new("Users", EntityType::AUTH);
    let a = make_schema(Version::new(1, 1, 0), vec![clone_entity(&users)]);
    let b = make_schema(Version::new(1, 1, 0), vec![users]);
    let comparator = SchemaComparator {}.new();
    match comparator.compare(&a, &b) {
        Err(CompareError::VersionNotAdvanced) => {},
        _ => panic!("equal versions must be rejected"),
    }
}

#[test]
fn compare_rejects_duplicate_identity() {
    let users = Entity::new("Users", EntityType::AUTH);
    let mut other = Entity::new("Other", EntityType::DATA);
    other.uuid = users.uuid.clone();
    let a = make_schema(Version::new(1, 0, 0), vec![clone_entity(&users)]);
    // the duplicate-identity schema cannot pass Schema::new, so build the
    // corrupt snapshot by mutating public fields after construction
    let mut b = make_schema(Version::new(1, 1, 0), vec![users]);
    b.entities.push(other);
    let comparator = SchemaComparator {};
    match comparator.compare(&a, &b) {
        Err(CompareError::DuplicateIdentity) => {},
        _ => panic!("duplicate identity must be rejected"),
    }
}

#[test]
fn rename_is_one_change_not_remove_and_add() {
    let users = Entity::new("Users", EntityType::AUTH);
    let mut renamed = clone_entity(&users);
    renamed.name = String::from("Members");
    let a = make_schema(Version::new(1, 0, 0), vec![users]);
    let b = make_schema(Version::new(1, 1, 0), vec![renamed]);
    let comparator = SchemaComparator {};
    let changes = comparator.compare(&a, &b).unwrap();
    assert_eq!(changes.len(), 1);
    match &changes[0] {
        SchemaChange::RenameEntity(uuid, name) => {
            assert_eq!(*uuid, a.get_entities()[0].uuid);
            assert_eq!(name, "Members");
        },
        _ => panic!("expected exactly one rename"),
    }
}

#[test]
fn compare_detects_added_field() {
    let users = Entity::new("Users", EntityType::AUTH);
    let mut users_b = clone_entity(&users);
    assert!(users_b.add_field(email_field()).is_ok());
    let a = make_schema(Version::new(1, 0, 0), vec![users]);
    let b = make_schema(Version::new(1, 1, 0), vec![users_b]);
    let comparator = SchemaComparator {};
    let changes = comparator.compare(&a, &b).unwrap();
    assert_eq!(changes.len(), 1);
    match &changes[0] {
        SchemaChange::ChangeEntity(uuid, fcs) => {
            assert_eq!(*uuid, a.get_entities()[0].uuid);
            assert_eq!(fcs.len(), 1);
            match &fcs[0] {
                FieldChange::AddField(f) => {
                    assert_eq!(f.name, "email");
                    assert!(!f.nullable);
                },
                _ => panic!("expected an added field"),
            }
        },
        _ => panic!("expected one entity-change record"),
    }
}

#[test]
fn compare_detects_nullable_rule_and_type_changes() {
    let mut things = Entity::new("Things", EntityType::DATA);
    assert!(things.add_field(email_field()).is_ok());
    let mut things_b = clone_entity(&things);
    {
        let f = &mut things_b.fields[3];
        f.nullable = true;
        f.kind = EntityFieldType::TEXT {
            min: 3,
            max: 120,
            validate: String::from("^[a-z]+@.+$"),
            generate: String::new(),
        };
    }
    let a = make_schema(Version::new(1, 0, 0), vec![things]);
    let b = make_schema(Version::new(1, 1, 0), vec![things_b]);
    let comparator = SchemaComparator {};
    let changes = comparator.compare(&a, &b).unwrap();
    assert_eq!(changes.len(), 1);
    match &changes[0] {
        SchemaChange::ChangeEntity(_, fcs) => {
            assert_eq!(fcs.len(), 2);
            assert!(matches!(fcs[0], FieldChange::ChangeNullable(_, true)));
            match &fcs[1] {
                FieldChange::ChangeRule(_, validate, _) => {
                    assert_eq!(validate, "^[a-z]+@.+$");
                },
                _ => panic!("expected a rule change"),
            }
        },
        _ => panic!("expected one entity-change record"),
    }

    let mut things_c = Entity::new("Things", EntityType::DATA);
    things_c.uuid = b.entities[0].uuid.clone();
    let mut bool_field = email_field();
    bool_field.kind = EntityFieldType::BOOL;
    assert!(things_c.add_field(bool_field).is_ok());
    let c = make_schema(Version::new(1, 2, 0), vec![things_c]);
    let changes = comparator.compare(&b, &c).unwrap();
    assert_eq!(changes.len(), 1);
    match &changes[0] {
        SchemaChange::ChangeEntity(_, fcs) => {
            assert_eq!(fcs.len(), 2);
            assert!(matches!(fcs[0], FieldChange::ChangeNullable(_, false)));
            assert!(matches!(fcs[1], FieldChange::ChangeType(_, EntityFieldType::BOOL)));
        },
        _ => panic!("expected one entity-change record"),
    }
}

#[test]
fn compare_detects_removed_entity_and_added_entity() {
    let users = Entity::new("Users", EntityType::AUTH);
    let posts = Entity::new("Posts", EntityType::DATA);
    let a = make_schema(
        Version::new(1, 0, 0),
        vec![clone_entity(&users), clone_entity(&posts)],
    );
    let tags = Entity::new("Tags", EntityType::DATA);
    let b = make_schema(Version::new(1, 1, 0), vec![users, clone_entity(&tags)]);
    let comparator = SchemaComparator {};
    let changes = comparator.compare(&a, &b).unwrap();
    assert_eq!(changes.len(), 2);
    match &changes[0] {
        SchemaChange::RemoveEntity(uuid) => assert_eq!(*uuid, posts.uuid),
        _ => panic!("expected the removal first"),
    }
    match &changes[1] {
        SchemaChange::AddEntity(e) => assert_eq!(e.name, "Tags"),
        _ => panic!("expected the addition last"),
    }
}

#[test]
fn sorter_rejects_removal_with_surviving_reference() {
    let users = Entity::new("Users", EntityType::AUTH);
    let mut posts = Entity::new("Posts", EntityType::DATA);
    let rel = EntityField::new(
        "author",
        false,
        false,
        false,
        EntityFieldType::RELATION { target: users.uuid.clone() },
    );
    assert!(posts.add_field(rel).is_ok());
    let removal = vec![SchemaChange::RemoveEntity(users.uuid.clone())];
    let old_entities = vec![users, posts];
    match sort_changes(&old_entities, removal) {
        Err(SortError::UnresolvedReference) => {},
        _ => panic!("a removal leaving a dangling reference must be rejected"),
    }
}

#[test]
fn sorter_accepts_removal_once_field_is_dropped() {
    let users = Entity::new("Users", EntityType::AUTH);
    let mut posts = Entity::new("Posts", EntityType::DATA);
    let rel = EntityField::new(
        "author",
        false,
        false,
        false,
        EntityFieldType::RELATION { target: users.uuid.clone() },
    );
    assert!(posts.add_field(rel).is_ok());
    let rel_id = posts.get_fields()[3].id;
    let changes = vec![
        SchemaChange::RemoveEntity(users.uuid.clone()),
        SchemaChange::ChangeEntity(posts.uuid.clone(), vec![FieldChange::RemoveField(rel_id)]),
    ];
    let old_entities = vec![users, posts];
    let sorted = sort_changes(&old_entities, changes).unwrap();
    assert_eq!(sorted.len(), 2);
    assert!(matches!(sorted[0], SchemaChange::ChangeEntity(_, _)));
    assert!(matches!(sorted[1], SchemaChange::RemoveEntity(_)));
}

#[test]
fn sorter_orders_additions_by_their_relations() {
    let users = Entity::new("Users", EntityType::AUTH);
    let mut posts = Entity::new("Posts", EntityType::DATA);
    let rel = EntityField::new(
        "author",
        false,
        false,
        false,
        EntityFieldType::RELATION { target: users.uuid.clone() },
    );
    assert!(posts.add_field(rel).is_ok());
    let changes = vec![
        SchemaChange::AddEntity(posts),
        SchemaChange::AddEntity(clone_entity(&users)),
    ];
    let no_entities: Vec<Entity> = Vec::new();
    let sorted = sort_changes(&no_entities, changes).unwrap();
    assert_eq!(sorted.len(), 2);
    match &sorted[0] {
        SchemaChange::AddEntity(e) => assert_eq!(e.name, "Users"),
        _ => panic!("the referenced entity must be created first"),
    }
}

#[test]
fn sorter_splits_mutually_referencing_additions() {
    let mut a = Entity::new("Alpha", EntityType::DATA);
    let mut b = Entity::new("Beta", EntityType::DATA);
    let rel_ab = EntityField::new(
        "beta",
        false,
        false,
        false,
        EntityFieldType::RELATION { target: b.uuid.clone() },
    );
    let rel_ba = EntityField::new(
        "alpha",
        false,
        false,
        false,
        EntityFieldType::RELATION { target: a.uuid.clone() },
    );
    assert!(a.add_field(rel_ab).is_ok());
    assert!(b.add_field(rel_ba).is_ok());
    let changes = vec![SchemaChange::AddEntity(a), SchemaChange::AddEntity(b)];
    let no_entities: Vec<Entity> = Vec::new();
    let sorted = sort_changes(&no_entities, changes).unwrap();
    let adds = sorted
        .iter()
        .filter(|c| matches!(c, SchemaChange::AddEntity(_)))
        .count();
    let fixes = sorted
        .iter()
        .filter(|c| matches!(c, SchemaChange::ChangeEntity(_, _)))
        .count();
    assert_eq!(adds, 2);
    assert_eq!(fixes, 2);
    for c in &sorted {
        if let SchemaChange::AddEntity(e) = c {
            for f in e.get_fields() {
                assert!(!matches!(f.kind, EntityFieldType::RELATION { .. }));
            }
        }
    }
}

#[test]
fn sorter_fails_on_removal_cycle() {
    let mut a = Entity::new("Alpha", EntityType::DATA);
    let mut b = Entity::new("Beta", EntityType::DATA);
    let rel_ab = EntityField::new(
        "beta",
        false,
        false,
        false,
        EntityFieldType::RELATION { target: b.uuid.clone() },
    );
    let rel_ba = EntityField::new(
        "alpha",
        false,
        false,
        false,
        EntityFieldType::RELATION { target: a.uuid.clone() },
    );
    assert!(a.add_field(rel_ab).is_ok());
    assert!(b.add_field(rel_ba).is_ok());
    let changes = vec![
        SchemaChange::RemoveEntity(a.uuid.clone()),
        SchemaChange::RemoveEntity(b.uuid.clone()),
    ];
    let old_entities = vec![a, b];
    match sort_changes(&old_entities, changes) {
        Err(SortError::CyclicDependency) => {},
        _ => panic!("a removal cycle must be refused"),
    }
}

#[test]
fn migration_is_idempotent() {
    let users = Entity::new("Users", EntityType::AUTH);
    let v1 = Version::new(1, 0, 0);
    let mut store = MemoryStore::new();
    let changes = vec![SchemaChange::AddEntity(clone_entity(&users))];
    assert!(store.run_migration(changes, v1, false).is_ok());
    assert_eq!(store.entities.len(), 1);
    assert_eq!(store.history.len(), 1);
    let again = vec![SchemaChange::AddEntity(users)];
    assert!(store.run_migration(again, v1, false).is_ok());
    assert_eq!(store.entities.len(), 1);
    assert_eq!(store.history.len(), 1);
}

#[test]
fn destructive_changes_need_consent() {
    let users = Entity::new("Users", EntityType::AUTH);
    let mut users_b = clone_entity(&users);
    assert!(users_b.add_field(email_field()).is_ok());
    let email_id = users_b.get_fields()[3].id;
    let mut store = MemoryStore::new();
    assert!(store.run_migration(
        vec![SchemaChange::AddEntity(users_b)],
        Version::new(1, 0, 0),
        false,
    )
    .is_ok());
    let removal = vec![SchemaChange::ChangeEntity(
        users.uuid.clone(),
        vec![FieldChange::RemoveField(email_id)],
    )];
    match store.run_migration(removal, Version::new(1, 1, 0), false) {
        Err(MigrateError::DestructiveChangeRejected) => {},
        _ => panic!("a destructive change without consent must be rejected"),
    }
    assert_eq!(store.entities[0].get_fields().len(), 4);
    assert_eq!(store.history.len(), 1);
    let removal = vec![SchemaChange::ChangeEntity(
        users.uuid.clone(),
        vec![FieldChange::RemoveField(email_id)],
    )];
    assert!(store.run_migration(removal, Version::new(1, 1, 0), true).is_ok());
    assert_eq!(store.entities[0].get_fields().len(), 3);
    assert_eq!(store.history.len(), 2);
}

#[test]
fn failed_change_rolls_the_whole_batch_back() {
    let users = Entity::new("Users", EntityType::AUTH);
    let mut store = MemoryStore::new();
    let batch = vec![
        SchemaChange::AddEntity(users),
        SchemaChange::RenameEntity(String::from("unknownidentity"), String::from("X")),
    ];
    match store.run_migration(batch, Version::new(1, 0, 0), false) {
        Err(MigrateError::ApplyFailed(i)) => assert_eq!(i, 1),
        _ => panic!("an unknown entity must fail the batch"),
    }
    assert_eq!(store.entities.len(), 0);
    assert_eq!(store.history.len(), 0);
}

#[test]
fn end_to_end_add_email_field() {
    let users = Entity::new("Users", EntityType::AUTH);
    let mut users_b = clone_entity(&users);
    assert!(users_b.add_field(email_field()).is_ok());
    let a = make_schema(Version::new(1, 0, 0), vec![clone_entity(&users)]);
    let b = make_schema(Version::new(1, 1, 0), vec![users_b]);
    let comparator = SchemaComparator {};
    let changes = comparator.compare(&a, &b).unwrap();
    assert_eq!(changes.len(), 1);
    match &changes[0] {
        SchemaChange::ChangeEntity(uuid, fcs) => {
            assert_eq!(*uuid, users.uuid);
            assert_eq!(fcs.len(), 1);
            assert!(matches!(&fcs[0], FieldChange::AddField(f) if f.name == "email"));
        },
        _ => panic!("expected one entity-change record"),
    }
    let mut store = MemoryStore::new();
    assert!(store.run_migration(
        vec![SchemaChange::AddEntity(users)],
        Version::new(1, 0, 0),
        false,
    )
    .is_ok());
    let sorted = sort_changes(a.get_entities(), changes).unwrap();
    assert!(store.migrate(sorted, Version::new(1, 1, 0), false).is_ok());
    let fields = store.entities[0].get_fields();
    assert_eq!(fields.len(), 4);
    assert_eq!(fields[3].name, "email");
    assert!(!fields[3].nullable);
    assert_eq!(store.history.len(), 2);
    assert_eq!(store.history[1].version, Version::new(1, 1, 0));
}

#[test]
fn end_to_end_removing_email_needs_consent() {
    let users = Entity::new("Users", EntityType::AUTH);
    let mut users_b = clone_entity(&users);
    assert!(users_b.add_field(email_field()).is_ok());
    let email_id = users_b.get_fields()[3].id;
    let b = make_schema(Version::new(1, 1, 0), vec![clone_entity(&users_b)]);
    let c = make_schema(Version::new(1, 2, 0), vec![clone_entity(&users)]);
    // schema C keeps the entity identity but no longer has the email field
    let mut c = c;
    c.entities[0].uuid = users_b.uuid.clone();
    let comparator = SchemaComparator {};
    let changes = comparator.compare(&b, &c).unwrap();
    assert_eq!(changes.len(), 1);
    match &changes[0] {
        SchemaChange::ChangeEntity(_, fcs) => {
            assert_eq!(fcs.len(), 1);
            assert!(matches!(fcs[0], FieldChange::RemoveField(id) if id == email_id));
        },
        _ => panic!("expected one entity-change record"),
    }
    let mut store = MemoryStore::new();
    assert!(store.run_migration(
        vec![SchemaChange::AddEntity(users_b)],
        Version::new(1, 1, 0),
        false,
    )
    .is_ok());
    match store.run_migration(changes, Version::new(1, 2, 0), false) {
        Err(MigrateError::DestructiveChangeRejected) => {},
        _ => panic!("removing a field without consent must be rejected"),
    }
    let fields = store.entities[0].get_fields();
    assert_eq!(fields.len(), 4);
    assert_eq!(fields[3].name, "email");
    assert_eq!(store.history.len(), 1);
}

#[test]
fn lookup_by_identity_token() {
    let users = Entity::new("Users", EntityType::AUTH);
    let uuid = users.uuid.clone();
    let schema = make_schema(Version::new(1, 0, 0), vec![users]);
    let found = schema.get_entity_by_uuid(&uuid);
    assert!(found.is_some());
    assert_eq!(found.unwrap().name, "Users");
    assert!(schema.get_entity_by_uuid(&String::from("absent")).is_none());
}

#[test]
fn compare_detects_field_rename() {
    let mut things = Entity::new("Things", EntityType::DATA);
    assert!(things.add_field(email_field()).is_ok());
    let mut things_b = clone_entity(&things);
    things_b.fields[3].name = String::from("contact");
    let a = make_schema(Version::new(1, 0, 0), vec![things]);
    let b = make_schema(Version::new(1, 1, 0), vec![things_b]);
    let comparator = SchemaComparator {};
    let changes = comparator.compare(&a, &b).unwrap();
    assert_eq!(changes.len(), 1);
    match &changes[0] {
        SchemaChange::ChangeEntity(_, fcs) => {
            assert_eq!(fcs.len(), 1);
            match &fcs[0] {
                FieldChange::Rename(id, name) => {
                    assert_eq!(*id, a.get_entities()[0].get_fields()[3].id);
                    assert_eq!(name, "contact");
                },
                _ => panic!("expected a field rename"),
            }
        },
        _ => panic!("expected one entity-change record"),
    }
}

#[test]
fn compare_detects_changed_views() {
    let things = Entity::new("Things", EntityType::DATA);
    let mut things_b = clone_entity(&things);
    things_b.dtos.push(DTO {
        name: String::from("summary"),
        data: vec![(String::from("label"), DTOField::VALUE(String::from("name")))],
    });
    let a = make_schema(Version::new(1, 0, 0), vec![things]);
    let b = make_schema(Version::new(1, 1, 0), vec![things_b]);
    let comparator = SchemaComparator {};
    let changes = comparator.compare(&a, &b).unwrap();
    assert_eq!(changes.len(), 1);
    match &changes[0] {
        SchemaChange::ChangeEntity(_, fcs) => {
            assert_eq!(fcs.len(), 1);
            match &fcs[0] {
                FieldChange::ChangeDTO(ds) => {
                    assert_eq!(ds.len(), 1);
                    assert_eq!(ds[0].name, "summary");
                },
                _ => panic!("expected a derived-view change"),
            }
        },
        _ => panic!("expected one entity-change record"),
    }
}

#[test]
fn store_applies_renames_and_base_fields_stay_immutable() {
    let users = Entity::new("Users", EntityType::AUTH);
    let uuid = users.uuid.clone();
    let mut store = MemoryStore::new();
    assert!(store.run_migration(
        vec![SchemaChange::AddEntity(users)],
        Version::new(1, 0, 0),
        false,
    )
    .is_ok());
    assert!(store.run_migration(
        vec![SchemaChange::RenameEntity(uuid.clone(), String::from("Members"))],
        Version::new(1, 1, 0),
        false,
    )
    .is_ok());
    assert_eq!(store.entities[0].name, "Members");
    let id_field = store.entities[0].get_fields()[0].id;
    let drop_base = vec![SchemaChange::ChangeEntity(
        uuid,
        vec![FieldChange::RemoveField(id_field)],
    )];
    match store.run_migration(drop_base, Version::new(1, 2, 0), true) {
        Err(MigrateError::ApplyFailed(0)) => {},
        _ => panic!("removing a base field must be rejected by the store"),
    }
    assert_eq!(store.entities[0].get_fields().len(), 3);
}
