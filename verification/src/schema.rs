use vstd::prelude::*;

verus! {

/// Semantic version of a schema snapshot: major.minor.patch.
#[derive(Clone, Copy, PartialEq, Eq, Structural, Debug)]
pub struct Version {
    pub major: u64,
    pub minor: u64,
    pub patch: u64,
}

impl Version {
    /// Strict lexicographic order on (major, minor, patch).
    pub open spec fn spec_lt(self, other: Version) -> bool {
        self.major < other.major || (self.major == other.major && (self.minor < other.minor
            || (self.minor == other.minor && self.patch < other.patch)))
    }

    pub fn new(major: u64, minor: u64, patch: u64) -> (r: Version)
        ensures
            r == (Version { major, minor, patch }),
    {
        Version { major, minor, patch }
    }

    /// True when `self` is strictly older than `other`.
    pub fn precedes(&self, other: &Version) -> (r: bool)
        ensures
            r == self.spec_lt(*other),
    {
        self.major < other.major || (self.major == other.major && (self.minor < other.minor || (
        self.minor == other.minor && self.patch < other.patch)))
    }
}

/// What `str::to_lowercase` returns for a given character sequence.
pub uninterp spec fn lower_of(s: Seq<char>) -> Seq<char>;

/// Relies on str::to_lowercase: the result depends on the characters alone.
#[verifier::external_body]
pub(crate) fn lowercase(s: &str) -> (r: String)
    ensures
        r@ == lower_of(s@),
{
    s.to_lowercase()
}

/// Major, minor and patch of the version that semver parses out of a text,
/// if the text is a valid semantic version.
pub uninterp spec fn semver_triple(s: Seq<char>) -> Option<(u64, u64, u64)>;

/// Relies on semver::Version::parse: the parsed major, minor and patch
/// numbers; the result depends on the text alone.
#[verifier::external_body]
fn parse_semver(s: &str) -> (r: Option<Version>)
    ensures
        match r {
            Some(v) => semver_triple(s@) == Some((v.major, v.minor, v.patch)),
            None => semver_triple(s@) is None,
        },
{
    match semver::Version::parse(s) {
        Ok(v) => Some(Version { major: v.major, minor: v.minor, patch: v.patch }),
        Err(_) => None,
    }
}

/// Relies on uuid::Uuid::new_v4 and its simple formatter: a fresh random
/// identity token rendered as 32 hexadecimal characters.
#[verifier::external_body]
fn fresh_identity() -> (r: String)
    ensures
        r@.len() == 32,
{
    uuid::Uuid::new_v4().simple().to_string()
}

/// The timestamp of chrono's least (`upper` false) or greatest (`upper`
/// true) representable UTC instant; both are compile-time constants of the
/// crate, the same in every process.
pub uninterp spec fn utc_timestamp_bound(upper: bool) -> i64;

/// Relies on chrono's DateTime<Utc>::MIN_UTC and MAX_UTC: the two constant
/// timestamps, the least strictly below the greatest.
#[verifier::external_body]
fn utc_timestamp_bounds() -> (r: (i64, i64))
    ensures
        r.0 == utc_timestamp_bound(false),
        r.1 == utc_timestamp_bound(true),
        r.0 < r.1,
{
    (
        chrono::DateTime::<chrono::Utc>::MIN_UTC.timestamp(),
        chrono::DateTime::<chrono::Utc>::MAX_UTC.timestamp(),
    )
}

/// The kind of an entity.
#[allow(non_camel_case_types)]
#[derive(Clone, Copy, PartialEq, Eq, Structural, Debug)]
pub enum EntityType {
    AUTH,
    DATA,
    COMPUTED,
}

/// One output field of a derived view: a constant, or an expression over
/// source fields.
#[allow(non_camel_case_types)]
pub enum DTOField {
    STATIC,
    VALUE(String),
}

/// Mathematical model of a derived-view field.
#[allow(non_camel_case_types)]
#[verifier::ext_equal]
pub enum DTOFieldV {
    STATIC,
    VALUE(Seq<char>),
}

impl View for DTOField {
    type V = DTOFieldV;

    open spec fn view(&self) -> DTOFieldV {
        match self {
            DTOField::STATIC => DTOFieldV::STATIC,
            DTOField::VALUE(e) => DTOFieldV::VALUE(e@),
        }
    }
}

impl DeepView for DTOField {
    type V = DTOFieldV;

    open spec fn deep_view(&self) -> DTOFieldV {
        self.view()
    }
}

/// A derived view: a named read-only projection of an entity's fields.
pub struct DTO {
    pub name: String,
    pub data: Vec<(String, DTOField)>,
}

/// Mathematical model of one named entry of a derived view.
#[verifier::ext_equal]
pub struct DTOEntryV {
    pub name: Seq<char>,
    pub value: DTOFieldV,
}

/// The entries of a derived view, as a sequence of models.
pub open spec fn dto_entries(data: Seq<(String, DTOField)>) -> Seq<DTOEntryV> {
    Seq::new(data.len(), |i: int| DTOEntryV { name: data[i].0@, value: data[i].1@ })
}

/// Mathematical model of a derived view.
#[verifier::ext_equal]
pub struct DTOV {
    pub name: Seq<char>,
    pub data: Seq<DTOEntryV>,
}

impl View for DTO {
    type V = DTOV;

    open spec fn view(&self) -> DTOV {
        DTOV { name: self.name@, data: dto_entries(self.data@) }
    }
}

impl DeepView for DTO {
    type V = DTOV;

    open spec fn deep_view(&self) -> DTOV {
        self.view()
    }
}

/// The closed set of field types.
#[allow(non_camel_case_types)]
#[allow(inconsistent_fields)]
pub enum EntityFieldType {
    TEXT { min: u32, max: u32, validate: String, generate: String },
    NUMBER { min: i64, max: i64, is_int: bool },
    BOOL,
    DATE { min_date: i64, max_date: i64 },
    RELATION { target: String },
    RELATION_MANY { targets: Vec<String> },
}

/// Mathematical model of a field type. Relation variants carry the identity
/// tokens of the entities they point at.
#[allow(non_camel_case_types)]
#[allow(inconsistent_fields)]
#[verifier::ext_equal]
pub enum FieldTypeV {
    TEXT { min: u32, max: u32, validate: Seq<char>, generate: Seq<char> },
    NUMBER { min: i64, max: i64, is_int: bool },
    BOOL,
    DATE { min_date: i64, max_date: i64 },
    RELATION { target: Seq<char> },
    RELATION_MANY { targets: Seq<Seq<char>> },
}

impl View for EntityFieldType {
    type V = FieldTypeV;

    open spec fn view(&self) -> FieldTypeV {
        match self {
            EntityFieldType::TEXT { min, max, validate, generate } => FieldTypeV::TEXT {
                min: *min,
                max: *max,
                validate: validate@,
                generate: generate@,
            },
            EntityFieldType::NUMBER { min, max, is_int } => FieldTypeV::NUMBER {
                min: *min,
                max: *max,
                is_int: *is_int,
            },
            EntityFieldType::BOOL => FieldTypeV::BOOL,
            EntityFieldType::DATE { min_date, max_date } => FieldTypeV::DATE {
                min_date: *min_date,
                max_date: *max_date,
            },
            EntityFieldType::RELATION { target } => FieldTypeV::RELATION { target: target@ },
            EntityFieldType::RELATION_MANY { targets } => FieldTypeV::RELATION_MANY {
                targets: targets.deep_view(),
            },
        }
    }
}

impl DeepView for EntityFieldType {
    type V = FieldTypeV;

    open spec fn deep_view(&self) -> FieldTypeV {
        self.view()
    }
}

/// A field of an entity. The identity token `id` is assigned once by the
/// owning entity when the field is added and never changes afterwards; it is
/// the matching key across schema versions, so a renamed field is recognised
/// as the same field.
pub struct EntityField {
    pub id: u64,
    pub name: String,
    pub nullable: bool,
    pub base: bool,
    pub primary_key: bool,
    pub kind: EntityFieldType,
}

/// Mathematical model of a field.
#[verifier::ext_equal]
pub struct FieldV {
    pub id: u64,
    pub name: Seq<char>,
    pub nullable: bool,
    pub base: bool,
    pub primary_key: bool,
    pub kind: FieldTypeV,
}

impl View for EntityField {
    type V = FieldV;

    open spec fn view(&self) -> FieldV {
        FieldV {
            id: self.id,
            name: self.name@,
            nullable: self.nullable,
            base: self.base,
            primary_key: self.primary_key,
            kind: self.kind.deep_view(),
        }
    }
}

impl DeepView for EntityField {
    type V = FieldV;

    open spec fn deep_view(&self) -> FieldV {
        self.view()
    }
}

impl EntityField {
    /// A field as handed to `Entity::add_field`; the identity token is
    /// assigned by the entity, so it starts at zero here.
    pub fn new(name: &str, nullable: bool, base: bool, primary_key: bool, kind: EntityFieldType)
        -> (r: EntityField)
        ensures
            r.deep_view() == (FieldV {
                id: 0,
                name: name@,
                nullable,
                base,
                primary_key,
                kind: kind.deep_view(),
            }),
    {
        EntityField { id: 0, name: name.to_owned(), nullable, base, primary_key, kind }
    }
}

/// A named record type with a stable identity token (`uuid`); the token, not
/// the name, matches the same logical entity across schema versions.
pub struct Entity {
    pub uuid: String,
    pub name: String,
    pub kind: EntityType,
    pub fields: Vec<EntityField>,
    pub dtos: Vec<DTO>,
    pub next_field_id: u64,
}

/// Mathematical model of an entity.
#[verifier::ext_equal]
pub struct EntityV {
    pub uuid: Seq<char>,
    pub name: Seq<char>,
    pub kind: EntityType,
    pub fields: Seq<FieldV>,
    pub dtos: Seq<DTOV>,
    pub next_field_id: u64,
}

impl View for Entity {
    type V = EntityV;

    open spec fn view(&self) -> EntityV {
        EntityV {
            uuid: self.uuid@,
            name: self.name@,
            kind: self.kind,
            fields: self.fields.deep_view(),
            dtos: self.dtos.deep_view(),
            next_field_id: self.next_field_id,
        }
    }
}

impl DeepView for Entity {
    type V = EntityV;

    open spec fn deep_view(&self) -> EntityV {
        self.view()
    }
}

/// Well-formedness of an entity: field identity tokens are unique and below
/// the allocation counter, field names are unique, at most one field is the
/// primary key, and a primary key is text-typed.
pub open spec fn entity_wf(e: EntityV) -> bool {
    &&& forall|i: int, j: int| 0 <= i < j < e.fields.len() ==> e.fields[i].id != e.fields[j].id
    &&& forall|i: int, j: int|
        0 <= i < j < e.fields.len() ==> e.fields[i].name != e.fields[j].name
    &&& forall|i: int| 0 <= i < e.fields.len() ==> e.fields[i].id < e.next_field_id
    &&& forall|i: int, j: int|
        0 <= i < j < e.fields.len() ==> !(e.fields[i].primary_key && e.fields[j].primary_key)
    &&& forall|i: int|
        0 <= i < e.fields.len() && e.fields[i].primary_key ==> e.fields[i].kind is TEXT
}

/// A field may be added when its name is new to the entity and, if it claims
/// the primary key, no other field holds it and the field is text-typed.
pub open spec fn can_add_field(e: EntityV, f: FieldV) -> bool {
    &&& forall|i: int| 0 <= i < e.fields.len() ==> e.fields[i].name != f.name
    &&& f.primary_key ==> ((forall|i: int|
        0 <= i < e.fields.len() ==> !e.fields[i].primary_key) && f.kind is TEXT)
}

/// The entity after adding `f`: the field gets the next identity token.
pub open spec fn with_field(e: EntityV, f: FieldV) -> EntityV {
    EntityV {
        fields: e.fields.push(FieldV { id: e.next_field_id, ..f }),
        next_field_id: (e.next_field_id + 1) as u64,
        ..e
    }
}

/// Folds `can_add_field`/`with_field` over a sequence of candidate fields;
/// `None` when some step is rejected.
pub open spec fn add_all_fields(e: EntityV, fs: Seq<FieldV>) -> Option<EntityV>
    decreases fs.len(),
{
    if fs.len() == 0 {
        Some(e)
    } else if can_add_field(e, fs[0]) {
        add_all_fields(with_field(e, fs[0]), fs.drop_first())
    } else {
        None
    }
}

/// The three system-seeded base fields, in order: a text primary key `id`,
/// and the timestamps `created` and `updated`. Identity tokens are ignored
/// here; the owning entity assigns them.
pub open spec fn is_base_seed(fs: Seq<FieldV>) -> bool {
    &&& fs.len() == 3
    &&& fs[0].name == "id"@
    &&& fs[0].base
    &&& fs[0].primary_key
    &&& !fs[0].nullable
    &&& fs[0].kind == (FieldTypeV::TEXT {
        min: 15,
        max: 15,
        validate: "^[a-z0-9]+$"@,
        generate: "[a-z0-9]{15}"@,
    })
    &&& fs[1].name == "created"@
    &&& fs[1].base
    &&& !fs[1].primary_key
    &&& !fs[1].nullable
    &&& fs[1].kind == (FieldTypeV::DATE {
        min_date: utc_timestamp_bound(false),
        max_date: utc_timestamp_bound(true),
    })
    &&& fs[2].name == "updated"@
    &&& fs[2].base
    &&& !fs[2].primary_key
    &&& !fs[2].nullable
    &&& fs[2].kind == (FieldTypeV::DATE {
        min_date: utc_timestamp_bound(false),
        max_date: utc_timestamp_bound(true),
    })
}

impl EntityType {
    /// The fields every freshly created entity is seeded with; the result is
    /// the same for every receiver and every call, identity tokens still
    /// unassigned.
    pub fn generate_base_fields(&self) -> (r: Vec<EntityField>)
        ensures
            is_base_seed(r.deep_view()),
            forall|k: int| 0 <= k < r.deep_view().len() ==> r.deep_view()[k].id == 0,
    {
        let bounds: (i64, i64) = utc_timestamp_bounds();
        let mut fields: Vec<EntityField> = Vec::new();
        fields.push(EntityField::new(
            "id",
            false,
            true,
            true,
            EntityFieldType::TEXT {
                min: 15,
                max: 15,
                validate: "^[a-z0-9]+$".to_owned(),
                generate: "[a-z0-9]{15}".to_owned(),
            },
        ));
        fields.push(EntityField::new(
            "created",
            false,
            true,
            false,
            EntityFieldType::DATE { min_date: bounds.0, max_date: bounds.1 },
        ));
        fields.push(EntityField::new(
            "updated",
            false,
            true,
            false,
            EntityFieldType::DATE { min_date: bounds.0, max_date: bounds.1 },
        ));
        match self {
            EntityType::AUTH => {},
            EntityType::DATA => {},
            EntityType::COMPUTED => {},
        }
        fields
    }
}

impl Entity {
    /// Whether the entity already holds a field of the given name.
    pub(crate) fn has_field_named(&self, name: &String) -> (r: bool)
        ensures
            r == exists|i: int|
                0 <= i < self.deep_view().fields.len() && self.deep_view().fields[i].name
                    == name@,
    {
        let ghost fs = self.deep_view().fields;
        let mut i: usize = 0;
        while i < self.fields.len()
            invariant
                0 <= i <= self.fields.len(),
                fs == self.deep_view().fields,
                fs.len() == self.fields.len(),
                forall|k: int| 0 <= k < i ==> fs[k].name != name@,
            decreases self.fields.len() - i,
        {
            if self.fields[i].name == *name {
                assert(fs[i as int].name == name@);
                return true;
            }
            i = i + 1;
        }
        false
    }

    /// Whether some field already claims the primary key.
    fn has_primary_key(&self) -> (r: bool)
        ensures
            r == exists|i: int|
                0 <= i < self.deep_view().fields.len()
                    && self.deep_view().fields[i].primary_key,
    {
        let ghost fs = self.deep_view().fields;
        let mut i: usize = 0;
        while i < self.fields.len()
            invariant
                0 <= i <= self.fields.len(),
                fs == self.deep_view().fields,
                fs.len() == self.fields.len(),
                forall|k: int| 0 <= k < i ==> !fs[k].primary_key,
            decreases self.fields.len() - i,
        {
            if self.fields[i].primary_key {
                assert(fs[i as int].primary_key);
                return true;
            }
            i = i + 1;
        }
        false
    }

    /// Creates an entity with a fresh identity token, seeded with the three
    /// immutable base fields.
    pub fn new(name: &str, kind: EntityType) -> (r: Entity)
        ensures
            entity_wf(r.deep_view()),
            r.deep_view().name == name@,
            r.deep_view().kind == kind,
            r.deep_view().uuid.len() == 32,
            r.deep_view().dtos.len() == 0,
            is_base_seed(r.deep_view().fields),
            r.deep_view().fields[0].primary_key,
            forall|k: int| 0 <= k < 3 ==> r.deep_view().fields[k].id == k,
            r.deep_view().next_field_id == 3,
    {
        let mut entity = Entity {
            uuid: fresh_identity(),
            name: name.to_owned(),
            kind,
            fields: Vec::new(),
            dtos: Vec::new(),
            next_field_id: 0,
        };
        let ghost e0 = entity.deep_view();
        let base = entity.kind.generate_base_fields();
        let ghost bs = base.deep_view();
        let ghost e1 = with_field(e0, bs[0]);
        let ghost e2 = with_field(e1, bs[1]);
        let ghost e3 = with_field(e2, bs[2]);
        proof {
            reveal_strlit("id");
            reveal_strlit("created");
            reveal_strlit("updated");
            assert(e0.fields =~= Seq::<FieldV>::empty());
            assert(e0.dtos =~= Seq::<DTOV>::empty());
            assert(entity_wf(e0));
            assert("id"@.len() == 2);
            assert("created"@.len() == 7);
            assert("updated"@.len() == 7);
            assert("created"@[0] == 'c');
            assert("updated"@[0] == 'u');
            assert(can_add_field(e0, bs[0]));
            assert(e1.fields.len() == 1 && e1.fields[0].name == "id"@
                && e1.fields[0].primary_key == bs[0].primary_key);
            assert(can_add_field(e1, bs[1]));
            assert(e2.fields.len() == 2 && e2.fields[0].name == "id"@ && e2.fields[1].name
                == "created"@);
            assert(!bs[2].primary_key);
            assert(can_add_field(e2, bs[2]));
            assert(add_all_fields(e0, bs) == add_all_fields(e1, bs.drop_first()));
            assert(bs.drop_first().len() == 2 && bs.drop_first()[0] == bs[1]);
            assert(add_all_fields(e1, bs.drop_first()) == add_all_fields(
                e2,
                bs.drop_first().drop_first(),
            ));
            assert(bs.drop_first().drop_first().len() == 1 && bs.drop_first().drop_first()[0]
                == bs[2]);
            assert(add_all_fields(e2, bs.drop_first().drop_first()) == add_all_fields(
                e3,
                bs.drop_first().drop_first().drop_first(),
            ));
            assert(bs.drop_first().drop_first().drop_first().len() == 0);
            assert(add_all_fields(e0, bs) == Some(e3));
        }
        let res = entity.add_fields(&base);
        match res {
            Ok(_) => {
                proof {
                    assert(entity.deep_view() == e3);
                    assert(e3.fields.len() == 3);
                    assert(e3.fields[0] == (FieldV { id: 0u64, ..bs[0] }));
                    assert(e3.fields[1] == (FieldV { id: 1u64, ..bs[1] }));
                    assert(e3.fields[2] == (FieldV { id: 2u64, ..bs[2] }));
                    assert(is_base_seed(e3.fields));
                    assert(e3.next_field_id == 3);
                    assert(e3.fields[0].id == 0 && e3.fields[1].id == 1 && e3.fields[2].id
                        == 2);
                }
                entity
            },
            Err(_) => {
                proof {
                    assert(false);
                }
                entity
            },
        }
    }

    /// Adds one field, assigning it the next identity token. Rejected, and
    /// the entity left unchanged, when the name collides with an existing
    /// field or the field claims a second primary key (or a non-text one).
    pub fn add_field(&mut self, field: EntityField) -> (r: Result<(), SchemaError>)
        requires
            entity_wf(old(self).deep_view()),
            old(self).deep_view().next_field_id < u64::MAX,
        ensures
            entity_wf(final(self).deep_view()),
            match r {
                Ok(_) => can_add_field(old(self).deep_view(), field.deep_view()) && final(self).deep_view() == with_field(old(self).deep_view(), field.deep_view()),
                Err(e) => !can_add_field(old(self).deep_view(), field.deep_view()) && final(self).deep_view() == old(self).deep_view() && e
                    == SchemaError::SchemaInvariantViolation,
            },
    {
        let ghost oldv = self.deep_view();
        let ghost fv = field.deep_view();
        if self.has_field_named(&field.name) {
            assert(!can_add_field(oldv, fv));
            return Err(SchemaError::SchemaInvariantViolation);
        }
        if field.primary_key {
            let pk_clash = self.has_primary_key();
            let is_text = match &field.kind {
                EntityFieldType::TEXT { .. } => true,
                _ => false,
            };
            if pk_clash || !is_text {
                assert(!can_add_field(oldv, fv));
                return Err(SchemaError::SchemaInvariantViolation);
            }
        }
        assert(can_add_field(oldv, fv));
        let mut f = field;
        f.id = self.next_field_id;
        self.fields.push(f);
        self.next_field_id = self.next_field_id + 1;
        proof {
            let newv = self.deep_view();
            let g = FieldV { id: oldv.next_field_id, ..fv };
            assert(newv.fields =~= oldv.fields.push(g));
            assert(newv =~= with_field(oldv, fv));
            let n = newv.fields.len();
            assert forall|i: int, j: int| 0 <= i < j < n implies newv.fields[i].id
                != newv.fields[j].id by {
                if j < n - 1 {
                    assert(newv.fields[i] == oldv.fields[i] && newv.fields[j] == oldv.fields[j]);
                } else {
                    assert(newv.fields[i] == oldv.fields[i] && newv.fields[j] == g);
                    assert(oldv.fields[i].id < oldv.next_field_id);
                }
            }
            assert forall|i: int, j: int| 0 <= i < j < n implies newv.fields[i].name
                != newv.fields[j].name by {
                if j == n - 1 {
                    assert(newv.fields[i] == oldv.fields[i] && newv.fields[j] == g);
                }
            }
            assert forall|i: int, j: int| 0 <= i < j < n implies !(newv.fields[i].primary_key
                && newv.fields[j].primary_key) by {
                if j == n - 1 {
                    assert(newv.fields[i] == oldv.fields[i] && newv.fields[j] == g);
                    if g.primary_key {
                        assert(!oldv.fields[i].primary_key);
                    }
                }
            }
            assert(entity_wf(newv));
        }
        Ok(())
    }

    /// Adds a batch of fields, all or none: when any candidate is rejected,
    /// the entity is left exactly as it was.
    pub fn add_fields(&mut self, fields: &Vec<EntityField>) -> (r: Result<(), SchemaError>)
        requires
            entity_wf(old(self).deep_view()),
            old(self).deep_view().next_field_id + fields.deep_view().len() < u64::MAX,
        ensures
            entity_wf(final(self).deep_view()),
            match r {
                Ok(_) => add_all_fields(old(self).deep_view(), fields.deep_view()) == Some(
                    final(self).deep_view(),
                ),
                Err(e) => add_all_fields(old(self).deep_view(), fields.deep_view()) is None
                    && final(self).deep_view() == old(self).deep_view() && e
                    == SchemaError::SchemaInvariantViolation,
            },
    {
        let ghost oldv = self.deep_view();
        let ghost fvs = fields.deep_view();
        let mut staged = Entity {
            uuid: self.uuid.clone(),
            name: self.name.clone(),
            kind: self.kind,
            fields: clone_fields(&self.fields),
            dtos: clone_dtos(&self.dtos),
            next_field_id: self.next_field_id,
        };
        proof {
            assert(staged.deep_view() =~= oldv);
            assert(fvs.skip(0) =~= fvs);
        }
        let mut i: usize = 0;
        while i < fields.len()
            invariant
                0 <= i <= fields.len(),
                fvs == fields.deep_view(),
                fvs.len() == fields.len(),
                oldv == old(self).deep_view(),
                self.deep_view() == oldv,
                entity_wf(oldv),
                entity_wf(staged.deep_view()),
                staged.deep_view().uuid == oldv.uuid,
                staged.deep_view().name == oldv.name,
                staged.deep_view().kind == oldv.kind,
                staged.deep_view().dtos == oldv.dtos,
                staged.deep_view().next_field_id + (fvs.len() - i) < u64::MAX,
                add_all_fields(oldv, fvs) == add_all_fields(
                    staged.deep_view(),
                    fvs.skip(i as int),
                ),
            decreases fields.len() - i,
        {
            let ghost curv = staged.deep_view();
            let candidate = clone_field(&fields[i]);
            proof {
                assert(candidate.deep_view() == fvs[i as int]);
                assert(fvs.skip(i as int).len() == fvs.len() - i);
                assert(fvs.skip(i as int)[0] == fvs[i as int]);
                assert(fvs.skip(i as int).drop_first() =~= fvs.skip(i as int + 1));
            }
            match staged.add_field(candidate) {
                Ok(_) => {
                    proof {
                        assert(staged.deep_view() == with_field(curv, fvs[i as int]));
                        assert(add_all_fields(curv, fvs.skip(i as int)) == add_all_fields(
                            staged.deep_view(),
                            fvs.skip(i as int + 1),
                        ));
                    }
                },
                Err(_) => {
                    proof {
                        assert(add_all_fields(curv, fvs.skip(i as int)) is None);
                    }
                    return Err(SchemaError::SchemaInvariantViolation);
                },
            }
            i = i + 1;
        }
        proof {
            assert(fvs.skip(fvs.len() as int) =~= Seq::<FieldV>::empty());
            assert(add_all_fields(oldv, fvs) == Some(staged.deep_view()));
        }
        let ghost sv = staged.deep_view();
        let Entity { fields: staged_fields, next_field_id: staged_next, .. } = staged;
        self.fields = staged_fields;
        self.next_field_id = staged_next;
        proof {
            assert(self.deep_view() =~= sv);
        }
        Ok(())
    }

    /// The entity's fields, in declaration order.
    pub fn get_fields(&self) -> (r: &Vec<EntityField>)
        ensures
            r.deep_view() == self.deep_view().fields,
    {
        &self.fields
    }

    /// The entity's derived views, in declaration order.
    pub fn get_dtos(&self) -> (r: &Vec<DTO>)
        ensures
            r.deep_view() == self.deep_view().dtos,
    {
        &self.dtos
    }
}

/// Deep copy of a field type.
pub fn clone_field_type(k: &EntityFieldType) -> (r: EntityFieldType)
    ensures
        r.deep_view() == k.deep_view(),
{
    match k {
        EntityFieldType::TEXT { min, max, validate, generate } => EntityFieldType::TEXT {
            min: *min,
            max: *max,
            validate: validate.clone(),
            generate: generate.clone(),
        },
        EntityFieldType::NUMBER { min, max, is_int } => EntityFieldType::NUMBER {
            min: *min,
            max: *max,
            is_int: *is_int,
        },
        EntityFieldType::BOOL => EntityFieldType::BOOL,
        EntityFieldType::DATE { min_date, max_date } => EntityFieldType::DATE {
            min_date: *min_date,
            max_date: *max_date,
        },
        EntityFieldType::RELATION { target } => EntityFieldType::RELATION {
            target: target.clone(),
        },
        EntityFieldType::RELATION_MANY { targets } => {
            let mut out: Vec<String> = Vec::new();
            let mut i: usize = 0;
            while i < targets.len()
                invariant
                    0 <= i <= targets.len(),
                    out.deep_view().len() == i,
                    forall|k2: int| 0 <= k2 < i ==> out.deep_view()[k2]
                        == targets.deep_view()[k2],
                decreases targets.len() - i,
            {
                out.push(targets[i].clone());
                i = i + 1;
            }
            proof {
                assert(out.deep_view() =~= targets.deep_view());
            }
            EntityFieldType::RELATION_MANY { targets: out }
        },
    }
}

/// Deep copy of a field.
pub fn clone_field(f: &EntityField) -> (r: EntityField)
    ensures
        r.deep_view() == f.deep_view(),
{
    EntityField {
        id: f.id,
        name: f.name.clone(),
        nullable: f.nullable,
        base: f.base,
        primary_key: f.primary_key,
        kind: clone_field_type(&f.kind),
    }
}

/// Deep copy of a field list.
pub fn clone_fields(fs: &Vec<EntityField>) -> (r: Vec<EntityField>)
    ensures
        r.deep_view() == fs.deep_view(),
{
    let mut out: Vec<EntityField> = Vec::new();
    let mut i: usize = 0;
    while i < fs.len()
        invariant
            0 <= i <= fs.len(),
            out.deep_view().len() == i,
            forall|k: int| 0 <= k < i ==> out.deep_view()[k] == fs.deep_view()[k],
        decreases fs.len() - i,
    {
        out.push(clone_field(&fs[i]));
        i = i + 1;
    }
    proof {
        assert(out.deep_view() =~= fs.deep_view());
    }
    out
}

/// Deep copy of a derived-view field.
pub fn clone_dto_field(v: &DTOField) -> (r: DTOField)
    ensures
        r.deep_view() == v.deep_view(),
{
    match v {
        DTOField::STATIC => DTOField::STATIC,
        DTOField::VALUE(e) => DTOField::VALUE(e.clone()),
    }
}

/// Deep copy of a derived view.
pub fn clone_dto(d: &DTO) -> (r: DTO)
    ensures
        r.deep_view() == d.deep_view(),
{
    let mut data: Vec<(String, DTOField)> = Vec::new();
    let mut i: usize = 0;
    while i < d.data.len()
        invariant
            0 <= i <= d.data.len(),
            data@.len() == i,
            forall|k: int| 0 <= k < i ==> data@[k].0@ == d.data@[k].0@ && data@[k].1@
                == d.data@[k].1@,
        decreases d.data.len() - i,
    {
        let entry = &d.data[i];
        let item = (entry.0.clone(), clone_dto_field(&entry.1));
        data.push(item);
        i = i + 1;
    }
    let r = DTO { name: d.name.clone(), data };
    proof {
        assert(dto_entries(r.data@) =~= dto_entries(d.data@));
        assert(r.deep_view() =~= d.deep_view());
    }
    r
}

/// Deep copy of a derived-view list.
pub fn clone_dtos(ds: &Vec<DTO>) -> (r: Vec<DTO>)
    ensures
        r.deep_view() == ds.deep_view(),
{
    let mut out: Vec<DTO> = Vec::new();
    let mut i: usize = 0;
    while i < ds.len()
        invariant
            0 <= i <= ds.len(),
            out.deep_view().len() == i,
            forall|k: int| 0 <= k < i ==> out.deep_view()[k] == ds.deep_view()[k],
        decreases ds.len() - i,
    {
        out.push(clone_dto(&ds[i]));
        i = i + 1;
    }
    proof {
        assert(out.deep_view() =~= ds.deep_view());
    }
    out
}

/// Deep copy of an entity.
pub fn clone_entity(e: &Entity) -> (r: Entity)
    ensures
        r.deep_view() == e.deep_view(),
{
    let r = Entity {
        uuid: e.uuid.clone(),
        name: e.name.clone(),
        kind: e.kind,
        fields: clone_fields(&e.fields),
        dtos: clone_dtos(&e.dtos),
        next_field_id: e.next_field_id,
    };
    proof {
        assert(r.deep_view() =~= e.deep_view());
    }
    r
}

/// A model-invariant violation: a colliding name, a second primary key, a
/// duplicate identity, or a dangling relation reference.
#[derive(Clone, Copy, PartialEq, Eq, Structural, Debug)]
pub enum SchemaError {
    SchemaInvariantViolation,
}

/// Schema-wide settings; none are defined yet.
pub struct SchemaSettings {}

/// A versioned schema snapshot: a semantic version and an ordered sequence
/// of entities.
pub struct Schema {
    pub version: Version,
    pub entities: Vec<Entity>,
    pub settings: SchemaSettings,
}

/// Mathematical model of a schema.
#[verifier::ext_equal]
pub struct SchemaV {
    pub version: Version,
    pub entities: Seq<EntityV>,
}

impl View for Schema {
    type V = SchemaV;

    open spec fn view(&self) -> SchemaV {
        SchemaV { version: self.version, entities: self.entities.deep_view() }
    }
}

impl DeepView for Schema {
    type V = SchemaV;

    open spec fn deep_view(&self) -> SchemaV {
        self.view()
    }
}

/// The identity tokens a field type points at.
pub open spec fn field_targets(k: FieldTypeV) -> Seq<Seq<char>> {
    match k {
        FieldTypeV::RELATION { target } => seq![target],
        FieldTypeV::RELATION_MANY { targets } => targets,
        _ => Seq::empty(),
    }
}

/// Whether some entity in the sequence carries the identity token.
pub open spec fn has_entity_uuid(es: Seq<EntityV>, u: Seq<char>) -> bool {
    exists|i: int| 0 <= i < es.len() && es[i].uuid == u
}

pub open spec fn unique_uuids(es: Seq<EntityV>) -> bool {
    forall|i: int, j: int| 0 <= i < j < es.len() ==> es[i].uuid != es[j].uuid
}

pub open spec fn unique_names_ci(es: Seq<EntityV>) -> bool {
    forall|i: int, j: int|
        0 <= i < j < es.len() ==> lower_of(es[i].name) != lower_of(es[j].name)
}

/// Every relation field of every entity points at an entity of the sequence.
pub open spec fn relations_resolve(es: Seq<EntityV>) -> bool {
    forall|i: int, j: int, t: int|
        0 <= i < es.len() && 0 <= j < es[i].fields.len() && 0 <= t < field_targets(
            es[i].fields[j].kind,
        ).len() ==> has_entity_uuid(es, field_targets(es[i].fields[j].kind)[t])
}

/// The construction-time invariant of a schema: every entity well-formed in
/// itself, identity tokens unique, names unique case-insensitively, no
/// dangling relation reference.
pub open spec fn schema_entities_ok(es: Seq<EntityV>) -> bool {
    (forall|i: int| 0 <= i < es.len() ==> entity_wf(#[trigger] es[i])) && unique_uuids(es)
        && unique_names_ci(es) && relations_resolve(es)
}

/// Whether the entity satisfies its own invariants; see `entity_wf`.
pub(crate) fn entity_well_formed(e: &Entity) -> (r: bool)
    ensures
        r == entity_wf(e.deep_view()),
{
    let ghost ev = e.deep_view();
    let fields = &e.fields;
    let ghost fvs = ev.fields;
    assert(fvs == fields.deep_view());
    let mut i: usize = 0;
    while i < fields.len()
        invariant
            0 <= i <= fields.len(),
            ev == e.deep_view(),
            fvs == ev.fields,
            fvs.len() == fields.len(),
            fields.deep_view() == fvs,
            forall|a: int, b: int| 0 <= a < b < i ==> fvs[a].id != fvs[b].id,
            forall|a: int, b: int| 0 <= a < b < i ==> fvs[a].name != fvs[b].name,
            forall|a: int, b: int|
                0 <= a < b < i ==> !(fvs[a].primary_key && fvs[b].primary_key),
            forall|a: int| 0 <= a < i ==> fvs[a].id < ev.next_field_id,
            forall|a: int| 0 <= a < i && fvs[a].primary_key ==> fvs[a].kind is TEXT,
        decreases fields.len() - i,
    {
        if fields[i].id >= e.next_field_id {
            assert(fvs[i as int].id >= ev.next_field_id);
            return false;
        }
        if fields[i].primary_key {
            let is_text = match &fields[i].kind {
                EntityFieldType::TEXT { .. } => true,
                _ => false,
            };
            if !is_text {
                assert(fvs[i as int].primary_key && !(fvs[i as int].kind is TEXT));
                return false;
            }
        }
        let mut j: usize = 0;
        while j < i
            invariant
                0 <= j <= i < fields.len(),
                ev == e.deep_view(),
                fvs == ev.fields,
                fvs.len() == fields.len(),
                fields.deep_view() == fvs,
                forall|b: int| 0 <= b < j ==> fvs[b].id != fvs[i as int].id,
                forall|b: int| 0 <= b < j ==> fvs[b].name != fvs[i as int].name,
                forall|b: int| 0 <= b < j ==> !(fvs[b].primary_key && fvs[
                i as int].primary_key),
            decreases i - j,
        {
            if fields[j].id == fields[i].id {
                assert(fvs[j as int].id == fvs[i as int].id);
                return false;
            }
            if fields[j].name == fields[i].name {
                assert(fvs[j as int].name == fvs[i as int].name);
                return false;
            }
            if fields[j].primary_key && fields[i].primary_key {
                assert(fvs[j as int].primary_key && fvs[i as int].primary_key);
                return false;
            }
            j = j + 1;
        }
        i = i + 1;
    }
    true
}

/// Whether a vector of entities holds the identity token.
pub(crate) fn contains_uuid(entities: &Vec<Entity>, u: &String) -> (r: bool)
    ensures
        r == has_entity_uuid(entities.deep_view(), u@),
{
    let ghost es = entities.deep_view();
    let mut i: usize = 0;
    while i < entities.len()
        invariant
            0 <= i <= entities.len(),
            es == entities.deep_view(),
            es.len() == entities.len(),
            forall|k: int| 0 <= k < i ==> es[k].uuid != u@,
        decreases entities.len() - i,
    {
        if entities[i].uuid == *u {
            assert(es[i as int].uuid == u@);
            return true;
        }
        i = i + 1;
    }
    false
}

impl Schema {
    /// Builds a schema after validating its construction-time invariants:
    /// each entity well-formed in itself (unique field names and identity
    /// tokens, at most one primary key, a text-typed primary key), unique
    /// entity identity tokens, case-insensitively unique entity names, and
    /// no dangling relation reference. On violation the schema is rejected.
    pub fn new(version: Version, entities: Vec<Entity>, settings: SchemaSettings) -> (r: Result<
        Schema,
        SchemaError,
    >)
        ensures
            match r {
                Ok(s) => schema_entities_ok(entities.deep_view()) && s.deep_view() == (SchemaV {
                    version,
                    entities: entities.deep_view(),
                }),
                Err(e) => !schema_entities_ok(entities.deep_view()) && e
                    == SchemaError::SchemaInvariantViolation,
            },
    {
        let ghost es = entities.deep_view();
        let mut i: usize = 0;
        while i < entities.len()
            invariant
                0 <= i <= entities.len(),
                es == entities.deep_view(),
                es.len() == entities.len(),
                forall|k: int| 0 <= k < i ==> entity_wf(#[trigger] es[k]),
            decreases entities.len() - i,
        {
            if !entity_well_formed(&entities[i]) {
                assert(!entity_wf(es[i as int]));
                return Err(SchemaError::SchemaInvariantViolation);
            }
            assert(entity_wf(es[i as int]));
            i = i + 1;
        }
        assert(forall|k: int| 0 <= k < es.len() ==> entity_wf(#[trigger] es[k]));
        let mut i: usize = 0;
        while i < entities.len()
            invariant
                0 <= i <= entities.len(),
                es == entities.deep_view(),
                es.len() == entities.len(),
                forall|k: int| 0 <= k < es.len() ==> entity_wf(#[trigger] es[k]),
                forall|a: int, b: int| 0 <= a < b < i ==> es[a].uuid != es[b].uuid,
            decreases entities.len() - i,
        {
            let mut j: usize = 0;
            while j < i
                invariant
                    0 <= j <= i < entities.len(),
                    es == entities.deep_view(),
                    es.len() == entities.len(),
                    forall|b: int| 0 <= b < j ==> es[b].uuid != es[i as int].uuid,
                decreases i - j,
            {
                if entities[j].uuid == entities[i].uuid {
                    assert(es[j as int].uuid == es[i as int].uuid);
                    assert(!unique_uuids(es));
                    return Err(SchemaError::SchemaInvariantViolation);
                }
                j = j + 1;
            }
            i = i + 1;
        }
        assert(unique_uuids(es));
        let mut lowers: Vec<String> = Vec::new();
        let mut i: usize = 0;
        while i < entities.len()
            invariant
                0 <= i <= entities.len(),
                es == entities.deep_view(),
                es.len() == entities.len(),
                unique_uuids(es),
                lowers.len() == i,
                forall|k: int| 0 <= k < i ==> lowers@[k]@ == lower_of(es[k].name),
            decreases entities.len() - i,
        {
            let low = lowercase(entities[i].name.as_str());
            proof {
                assert(es[i as int] == entities@[i as int].deep_view());
                assert(low@ == lower_of(es[i as int].name));
            }
            lowers.push(low);
            i = i + 1;
        }
        let mut i: usize = 0;
        while i < entities.len()
            invariant
                0 <= i <= entities.len(),
                es == entities.deep_view(),
                es.len() == entities.len(),
                unique_uuids(es),
                lowers.len() == entities.len(),
                forall|k: int| 0 <= k < lowers@.len() ==> lowers@[k]@ == lower_of(es[k].name),
                forall|a: int, b: int| 0 <= a < b < i ==> lower_of(es[a].name) != lower_of(
                    es[b].name,
                ),
            decreases entities.len() - i,
        {
            let mut j: usize = 0;
            while j < i
                invariant
                    0 <= j <= i < entities.len(),
                    es == entities.deep_view(),
                    es.len() == entities.len(),
                    lowers.len() == entities.len(),
                    forall|k: int| 0 <= k < lowers@.len() ==> lowers@[k]@ == lower_of(
                        es[k].name,
                    ),
                    forall|b: int| 0 <= b < j ==> lower_of(es[b].name) != lower_of(
                        es[i as int].name,
                    ),
                decreases i - j,
            {
                proof {
                    assert(lowers@[j as int]@ == lower_of(es[j as int].name));
                    assert(lowers@[i as int]@ == lower_of(es[i as int].name));
                }
                if lowers[j] == lowers[i] {
                    assert(lower_of(es[j as int].name) == lower_of(es[i as int].name));
                    assert(!unique_names_ci(es));
                    return Err(SchemaError::SchemaInvariantViolation);
                }
                j = j + 1;
            }
            i = i + 1;
        }
        assert(unique_names_ci(es));
        let mut i: usize = 0;
        while i < entities.len()
            invariant
                0 <= i <= entities.len(),
                es == entities.deep_view(),
                es.len() == entities.len(),
                unique_uuids(es),
                unique_names_ci(es),
                forall|a: int, j: int, t: int|
                    0 <= a < i && 0 <= j < es[a].fields.len() && 0 <= t < field_targets(
                        es[a].fields[j].kind,
                    ).len() ==> has_entity_uuid(es, field_targets(es[a].fields[j].kind)[t]),
            decreases entities.len() - i,
        {
            let fields = entities[i].get_fields();
            let ghost fvs = es[i as int].fields;
            assert(fvs == fields.deep_view());
            let mut j: usize = 0;
            while j < fields.len()
                invariant
                    0 <= j <= fields.len(),
                    es == entities.deep_view(),
                    es.len() == entities.len(),
                    0 <= i < entities.len(),
                    fvs == es[i as int].fields,
                    fvs.len() == fields.len(),
                    fields.deep_view() == fvs,
                    forall|b: int, t: int|
                        0 <= b < j && 0 <= t < field_targets(fvs[b].kind).len()
                            ==> has_entity_uuid(es, field_targets(fvs[b].kind)[t]),
                decreases fields.len() - j,
            {
                match &fields[j].kind {
                    EntityFieldType::RELATION { target } => {
                        if !contains_uuid(&entities, target) {
                            proof {
                                assert(field_targets(fvs[j as int].kind)[0] == target@);
                                assert(es[i as int].fields == fvs);
                                let ii = i as int;
                                let jj = j as int;
                                assert(0 <= ii < es.len());
                                assert(0 <= jj < es[ii].fields.len());
                                assert(0 < field_targets(es[ii].fields[jj].kind).len());
                                assert(!has_entity_uuid(
                                    es,
                                    field_targets(es[ii].fields[jj].kind)[0],
                                ));
                            }
                            assert(!relations_resolve(es));
                            return Err(SchemaError::SchemaInvariantViolation);
                        }
                        assert(forall|t: int|
                            0 <= t < field_targets(fvs[j as int].kind).len() ==> has_entity_uuid(
                                es,
                                field_targets(fvs[j as int].kind)[t],
                            ));
                    },
                    EntityFieldType::RELATION_MANY { targets } => {
                        let ghost ts = field_targets(fvs[j as int].kind);
                        assert(ts == targets.deep_view());
                        let mut t: usize = 0;
                        while t < targets.len()
                            invariant
                                0 <= t <= targets.len(),
                                es == entities.deep_view(),
                                es.len() == entities.len(),
                                0 <= i < entities.len(),
                                0 <= j < fvs.len(),
                                fvs == es[i as int].fields,
                                ts == targets.deep_view(),
                                ts == field_targets(fvs[j as int].kind),
                                ts.len() == targets.len(),
                                forall|u: int| 0 <= u < t ==> has_entity_uuid(es, ts[u]),
                            decreases targets.len() - t,
                        {
                            if !contains_uuid(&entities, &targets[t]) {
                                proof {
                                    assert(ts[t as int] == targets.deep_view()[t as int]);
                                    assert(es[i as int].fields == fvs);
                                    let ii = i as int;
                                    let jj = j as int;
                                    let tt = t as int;
                                    assert(0 <= ii < es.len());
                                    assert(0 <= jj < es[ii].fields.len());
                                    assert(0 <= tt < field_targets(es[ii].fields[jj].kind).len());
                                    assert(!has_entity_uuid(
                                        es,
                                        field_targets(es[ii].fields[jj].kind)[tt],
                                    ));
                                }
                                assert(!relations_resolve(es));
                                return Err(SchemaError::SchemaInvariantViolation);
                            }
                            t = t + 1;
                        }
                        assert(forall|u: int|
                            0 <= u < field_targets(fvs[j as int].kind).len() ==> has_entity_uuid(
                                es,
                                field_targets(fvs[j as int].kind)[u],
                            ));
                    },
                    _ => {
                        assert(field_targets(fvs[j as int].kind).len() == 0);
                    },
                }
                j = j + 1;
            }
            i = i + 1;
        }
        assert(relations_resolve(es));
        Ok(Schema { version, entities, settings })
    }

    /// The schema every fresh deployment starts from: the library's own
    /// version and a single auth-kind `Users` entity. `None` only if the
    /// built-in version text does not parse as a semantic version.
    pub fn default_schema() -> (r: Option<Schema>)
        ensures
            match r {
                Some(s) => {
                    &&& semver_triple("0.1.0"@) == Some(
                        (s.deep_view().version.major, s.deep_view().version.minor,
                        s.deep_view().version.patch),
                    )
                    &&& s.deep_view().entities.len() == 1
                    &&& s.deep_view().entities[0].name == "Users"@
                    &&& s.deep_view().entities[0].kind == EntityType::AUTH
                    &&& is_base_seed(s.deep_view().entities[0].fields)
                    &&& s.deep_view().entities[0].dtos.len() == 0
                    &&& schema_entities_ok(s.deep_view().entities)
                },
                None => semver_triple("0.1.0"@) is None,
            },
    {
        let version = match parse_semver("0.1.0") {
            Some(v) => v,
            None => {
                return None;
            },
        };
        let users = Entity::new("Users", EntityType::AUTH);
        let mut entities: Vec<Entity> = Vec::new();
        entities.push(users);
        proof {
            let es = entities.deep_view();
            assert(es.len() == 1);
            assert(unique_uuids(es));
            assert(unique_names_ci(es));
            assert forall|i: int, j: int, t: int|
                0 <= i < es.len() && 0 <= j < es[i].fields.len() && 0 <= t < field_targets(
                    es[i].fields[j].kind,
                ).len() implies has_entity_uuid(es, field_targets(es[i].fields[j].kind)[t]) by {
                assert(is_base_seed(es[0].fields));
                assert(field_targets(es[0].fields[j].kind).len() == 0);
            }
            assert(relations_resolve(es));
        }
        match Schema::new(version, entities, SchemaSettings {}) {
            Ok(s) => Some(s),
            Err(_) => {
                proof {
                    assert(false);
                }
                None
            },
        }
    }

    /// The schema's version.
    pub fn get_version(&self) -> (r: &Version)
        ensures
            *r == self.deep_view().version,
    {
        &self.version
    }

    /// The entities of the schema, in declaration order.
    pub fn get_entities(&self) -> (r: &Vec<Entity>)
        ensures
            r.deep_view() == self.deep_view().entities,
    {
        &self.entities
    }

    /// The first entity whose name equals the given text, ignoring case on
    /// both sides.
    pub fn get_entity_by_name(&self, name: String) -> (r: Option<&Entity>)
        ensures
            match r {
                Some(e) => exists|i: int|
                    {
                        &&& 0 <= i < self.deep_view().entities.len()
                        &&& e.deep_view() == self.deep_view().entities[i]
                        &&& lower_of(self.deep_view().entities[i].name) == lower_of(name@)
                        &&& forall|k: int| 0 <= k < i ==> lower_of(
                            self.deep_view().entities[k].name,
                        ) != lower_of(name@)
                    },
                None => forall|i: int| 0 <= i < self.deep_view().entities.len() ==> lower_of(
                    self.deep_view().entities[i].name,
                ) != lower_of(name@),
            },
    {
        let ghost es = self.deep_view().entities;
        let query = lowercase(name.as_str());
        let mut i: usize = 0;
        while i < self.entities.len()
            invariant
                0 <= i <= self.entities.len(),
                es == self.deep_view().entities,
                es.len() == self.entities.len(),
                query@ == lower_of(name@),
                forall|k: int| 0 <= k < i ==> lower_of(es[k].name) != lower_of(name@),
            decreases self.entities.len() - i,
        {
            let low = lowercase(self.entities[i].name.as_str());
            if low == query {
                proof {
                    assert(lower_of(es[i as int].name) == lower_of(name@));
                    assert(self.entities[i as int].deep_view() == es[i as int]);
                }
                return Some(&self.entities[i]);
            }
            i = i + 1;
        }
        None
    }

    /// The first entity carrying the given identity token.
    pub fn get_entity_by_uuid(&self, uuid: &String) -> (r: Option<&Entity>)
        ensures
            match r {
                Some(e) => exists|i: int|
                    {
                        &&& 0 <= i < self.deep_view().entities.len()
                        &&& e.deep_view() == self.deep_view().entities[i]
                        &&& self.deep_view().entities[i].uuid == uuid@
                        &&& forall|k: int| 0 <= k < i ==> self.deep_view().entities[k].uuid
                            != uuid@
                    },
                None => !has_entity_uuid(self.deep_view().entities, uuid@),
            },
    {
        let ghost es = self.deep_view().entities;
        let mut i: usize = 0;
        while i < self.entities.len()
            invariant
                0 <= i <= self.entities.len(),
                es == self.deep_view().entities,
                es.len() == self.entities.len(),
                forall|k: int| 0 <= k < i ==> es[k].uuid != uuid@,
            decreases self.entities.len() - i,
        {
            if self.entities[i].uuid == *uuid {
                proof {
                    assert(es[i as int].uuid == uuid@);
                    assert(self.entities[i as int].deep_view() == es[i as int]);
                }
                return Some(&self.entities[i]);
            }
            i = i + 1;
        }
        None
    }
}

} // verus!
