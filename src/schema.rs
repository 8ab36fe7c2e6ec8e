use vstd::prelude::*;
use chashmap::CHashMap;
use std::sync::Arc;
use crate::fields::{
    INBOUND_KEY_ID, OUTBOUND_KEY_ID, UNDIRECTED_KEY_ID, VERTEX_FROM_KEY_ID, VERTEX_TO_KEY_ID,
    VERTEX_A_KEY_ID, VERTEX_B_KEY_ID, FIRST_USER_SCHEMA_ID,
};
use crate::types::TYPE_ID;

verus! {

#[derive(Clone, Copy, Debug, PartialEq, Eq, Structural)]
pub enum EdgeType {
    Directed,
    Undirected,
}

#[derive(Clone, Copy, Debug, PartialEq, Eq, Structural)]
pub struct EdgeAttributes {
    pub edge_type: EdgeType,
    pub has_body: bool,
}

#[derive(Clone, Copy, Debug, PartialEq, Eq, Structural)]
pub enum SchemaType {
    Unspecified,
    Vertex,
    Edge(EdgeAttributes),
}

#[derive(Clone, Copy, Debug, PartialEq, Eq, Structural)]
pub enum SchemaError {
    /// The store refused the layout: a schema of that name exists, or the
    /// schema ids are used up.
    NewNebSchemaExecError,
    /// The registry refused the schema type.
    NewMorpheusSchemaExecError,
    SimpleEdgeShouldNotHaveSchema,
    SchemaTypeUnspecified,
}

/// One field of a stored cell layout.
#[derive(Debug)]
pub struct Field {
    pub name: String,
    pub key_id: u64,
    pub type_id: u32,
    pub nullable: bool,
}

impl Field {
    pub fn new(name: &str, key_id: u64, type_id: u32, nullable: bool) -> (r: Field)
        ensures
            r.name@ == name@,
            r.key_id == key_id,
            r.type_id == type_id,
            r.nullable == nullable,
    {
        Field { name: name.to_owned(), key_id, type_id, nullable }
    }

    pub fn copy(&self) -> (r: Field)
        ensures
            r == *self,
    {
        Field { name: self.name.clone(), key_id: self.key_id, type_id: self.type_id, nullable: self.nullable }
    }
}

pub fn copy_fields(fs: &Vec<Field>) -> (r: Vec<Field>)
    ensures
        r@ == fs@,
{
    let mut r: Vec<Field> = Vec::new();
    let mut i: usize = 0;
    while i < fs.len()
        invariant
            i <= fs@.len(),
            r@ == fs@.take(i as int),
        decreases fs@.len() - i,
    {
        r.push(fs[i].copy());
        i = i + 1;
        assert(r@ =~= fs@.take(i as int));
    }
    assert(fs@.take(fs@.len() as int) =~= fs@);
    r
}

/// The contents of an optional list of strings.
pub open spec fn strings_view(o: Option<Vec<String>>) -> Option<Seq<String>> {
    match o {
        Some(v) => Some(v@),
        None => None,
    }
}

pub fn copy_strings(o: Option<&Vec<String>>) -> (r: Option<Vec<String>>)
    ensures
        strings_view(r) == match o {
            Some(v) => Some(v@),
            None => None::<Seq<String>>,
        },
{
    match o {
        None => None,
        Some(v) => {
            let mut r: Vec<String> = Vec::new();
            let mut i: usize = 0;
            while i < v.len()
                invariant
                    i <= v@.len(),
                    r@ == v@.take(i as int),
                decreases v@.len() - i,
            {
                r.push(v[i].clone());
                i = i + 1;
                assert(r@ =~= v@.take(i as int));
            }
            assert(v@.take(v@.len() as int) =~= v@);
            Some(r)
        },
    }
}

/// A schema as users describe it: a name, an optional key and user fields.
pub struct MorpheusSchema {
    pub id: u32,
    pub name: String,
    pub schema_type: SchemaType,
    pub key_field: Option<Vec<String>>,
    pub fields: Vec<Field>,
    pub is_dynamic: bool,
}

impl MorpheusSchema {
    pub fn new(name: &str, key_field: Option<&Vec<String>>, fields: &Vec<Field>, is_dynamic: bool) -> (r: MorpheusSchema)
        ensures
            r.id == 0,
            r.name@ == name@,
            r.schema_type == SchemaType::Unspecified,
            strings_view(r.key_field) == match key_field {
                Some(v) => Some(v@),
                None => None::<Seq<String>>,
            },
            r.fields@ == fields@,
            r.is_dynamic == is_dynamic,
    {
        MorpheusSchema {
            id: 0,
            name: name.to_owned(),
            key_field: copy_strings(key_field),
            fields: copy_fields(fields),
            schema_type: SchemaType::Unspecified,
            is_dynamic,
        }
    }

    pub fn into_ref(self) -> (r: Arc<MorpheusSchema>)
        ensures
            *r == self,
    {
        Arc::new(self)
    }
}

/// `f` is the reserved id-typed field `name` with field id `key_id`.
pub open spec fn is_reserved_field(f: Field, name: Seq<char>, key_id: u64) -> bool {
    f.name@ == name && f.key_id == key_id && f.type_id == TYPE_ID && !f.nullable
}

/// The number of reserved fields that lead the layout of a schema type.
pub open spec fn template_len(st: SchemaType) -> int {
    match st {
        SchemaType::Vertex => 3,
        SchemaType::Edge(_) => 2,
        SchemaType::Unspecified => 0,
    }
}

/// `s` is the reserved field template of schema type `st`.
pub open spec fn is_template_of(st: SchemaType, s: Seq<Field>) -> bool {
    match st {
        SchemaType::Vertex => s.len() == 3 && is_reserved_field(s[0], "_inbound"@, INBOUND_KEY_ID)
            && is_reserved_field(s[1], "_outbound"@, OUTBOUND_KEY_ID) && is_reserved_field(
            s[2],
            "_undirected"@,
            UNDIRECTED_KEY_ID,
        ),
        SchemaType::Edge(ea) => s.len() == 2 && match ea.edge_type {
            EdgeType::Directed => is_reserved_field(s[0], "_vertex_from"@, VERTEX_FROM_KEY_ID)
                && is_reserved_field(s[1], "_vertex_to"@, VERTEX_TO_KEY_ID),
            EdgeType::Undirected => is_reserved_field(s[0], "_vertex_a"@, VERTEX_A_KEY_ID)
                && is_reserved_field(s[1], "_vertex_b"@, VERTEX_B_KEY_ID),
        },
        SchemaType::Unspecified => false,
    }
}

/// A simple (bodyless) edge schema that was given user fields.
pub open spec fn is_simple_with_fields(st: SchemaType, n: int) -> bool {
    match st {
        SchemaType::Edge(ea) => !ea.has_body && n > 0,
        _ => false,
    }
}

fn reserved_field(name: &str, key_id: u64) -> (r: Field)
    ensures
        is_reserved_field(r, name@, key_id),
{
    Field::new(name, key_id, TYPE_ID, false)
}

/// The stored layout for a schema type: its reserved fields followed by the
/// user's fields.
pub fn cell_fields(schema_type: SchemaType, body_fields: Vec<Field>) -> (r: Result<Vec<Field>, SchemaError>)
    ensures
        schema_type == SchemaType::Unspecified ==> r == Err::<Vec<Field>, SchemaError>(
            SchemaError::SchemaTypeUnspecified,
        ),
        is_simple_with_fields(schema_type, body_fields@.len() as int) ==> r == Err::<
            Vec<Field>,
            SchemaError,
        >(SchemaError::SimpleEdgeShouldNotHaveSchema),
        schema_type != SchemaType::Unspecified && !is_simple_with_fields(
            schema_type,
            body_fields@.len() as int,
        ) ==> r is Ok,
        r is Ok ==> {
            let f = r->Ok_0@;
            &&& f.len() == template_len(schema_type) + body_fields@.len()
            &&& is_template_of(schema_type, f.take(template_len(schema_type)))
            &&& f.skip(template_len(schema_type)) == body_fields@
        },
{
    let mut body_fields = body_fields;
    let mut fields: Vec<Field> = match schema_type {
        SchemaType::Vertex => {
            let mut t: Vec<Field> = Vec::new();
            t.push(reserved_field("_inbound", INBOUND_KEY_ID));
            t.push(reserved_field("_outbound", OUTBOUND_KEY_ID));
            t.push(reserved_field("_undirected", UNDIRECTED_KEY_ID));
            t
        },
        SchemaType::Edge(edge_attr) => {
            if !edge_attr.has_body && body_fields.len() > 0 {
                return Err(SchemaError::SimpleEdgeShouldNotHaveSchema);
            }
            let mut t: Vec<Field> = Vec::new();
            match edge_attr.edge_type {
                EdgeType::Directed => {
                    t.push(reserved_field("_vertex_from", VERTEX_FROM_KEY_ID));
                    t.push(reserved_field("_vertex_to", VERTEX_TO_KEY_ID));
                },
                EdgeType::Undirected => {
                    t.push(reserved_field("_vertex_a", VERTEX_A_KEY_ID));
                    t.push(reserved_field("_vertex_b", VERTEX_B_KEY_ID));
                },
            }
            t
        },
        SchemaType::Unspecified => return Err(SchemaError::SchemaTypeUnspecified),
    };
    let ghost t = fields@;
    let ghost b = body_fields@;
    fields.append(&mut body_fields);
    assert(fields@.take(t.len() as int) =~= t);
    assert(fields@.skip(t.len() as int) =~= b);
    Ok(fields)
}


#[verifier::external_type_specification]
#[verifier::external_body]
#[verifier::reject_recursive_types(K)]
#[verifier::reject_recursive_types(V)]
pub struct ExCHashMap<K, V>(CHashMap<K, V>);

/// The entries of a schema-type map.
pub uninterp spec fn type_map_of(m: CHashMap<u32, SchemaType>) -> Map<u32, SchemaType>;

/// The table of a schema-type map holds no bucket that a removal left
/// behind. Its entries then fill at most the load factor of its buckets, so
/// every lookup meets its key or a never-used bucket and returns.
pub uninterp spec fn type_map_compact(m: CHashMap<u32, SchemaType>) -> bool;

/// Relies on CHashMap::new: a new map holds no entry, and all its buckets
/// are unused.
#[verifier::external_body]
fn type_map_new() -> (r: CHashMap<u32, SchemaType>)
    ensures
        type_map_of(r).dom().is_empty(),
        type_map_compact(r),
{
    CHashMap::new()
}

/// Relies on CHashMap::insert: the entry for `k` is replaced or added, the
/// others stay. It fills a matching or unused bucket, and a growth rebuilds
/// the table from its entries, so it leaves no removed bucket behind.
#[verifier::external_body]
fn type_map_insert(m: &mut CHashMap<u32, SchemaType>, k: u32, v: SchemaType)
    ensures
        type_map_of(*final(m)) == type_map_of(*old(m)).insert(k, v),
        type_map_compact(*old(m)) ==> type_map_compact(*final(m)),
{
    m.insert(k, v);
}

/// Relies on CHashMap::remove: the entry for `k` is gone, and its value
/// is returned, if there was one.
#[verifier::external_body]
fn type_map_remove(m: &mut CHashMap<u32, SchemaType>, k: u32) -> (r: Option<SchemaType>)
    requires
        type_map_compact(*old(m)),
    ensures
        type_map_of(*final(m)) == type_map_of(*old(m)).remove(k),
        r == type_map_of(*old(m)).get(k),
{
    m.remove(&k)
}

/// Relies on CHashMap::shrink_to_fit: the table is rebuilt from its entries
/// alone, which stay as they are.
#[verifier::external_body]
fn type_map_shrink(m: &mut CHashMap<u32, SchemaType>)
    ensures
        type_map_of(*final(m)) == type_map_of(*old(m)),
        type_map_compact(*final(m)),
{
    m.shrink_to_fit();
}

/// Relies on CHashMap::get: the value stored for `k`, if any.
#[verifier::external_body]
fn type_map_get(m: &CHashMap<u32, SchemaType>, k: u32) -> (r: Option<SchemaType>)
    requires
        type_map_compact(*m),
    ensures
        r == type_map_of(*m).get(k),
{
    m.get(&k).map(|g| *g)
}

/// A layout registered with the store: its id, name, key and fields.
pub struct Schema {
    pub id: u32,
    pub name: String,
    pub key_field: Option<Vec<String>>,
    pub fields: Vec<Field>,
    pub is_dynamic: bool,
}

/// `a` and `b` describe the same layout.
pub open spec fn same_schema(a: Schema, b: Schema) -> bool {
    &&& a.id == b.id
    &&& a.name@ == b.name@
    &&& strings_view(a.key_field) == strings_view(b.key_field)
    &&& a.fields@ == b.fields@
    &&& a.is_dynamic == b.is_dynamic
}

impl Schema {
    pub fn new_with_id(id: u32, name: &str, key_field: Option<&Vec<String>>, fields: Vec<Field>, is_dynamic: bool) -> (r: Schema)
        ensures
            r.id == id,
            r.name@ == name@,
            strings_view(r.key_field) == match key_field {
                Some(v) => Some(v@),
                None => None::<Seq<String>>,
            },
            r.fields == fields,
            r.is_dynamic == is_dynamic,
    {
        Schema { id, name: name.to_owned(), key_field: copy_strings(key_field), fields, is_dynamic }
    }

    pub fn copy(&self) -> (r: Schema)
        ensures
            same_schema(r, *self),
    {
        Schema {
            id: self.id,
            name: self.name.clone(),
            key_field: copy_strings(self.key_field.as_ref()),
            fields: copy_fields(&self.fields),
            is_dynamic: self.is_dynamic,
        }
    }
}

/// The last layout in `s` with id `id`.
pub open spec fn schema_of(s: Seq<Schema>, id: u32) -> Option<Schema>
    decreases s.len(),
{
    if s.len() == 0 {
        None
    } else if s.last().id == id {
        Some(s.last())
    } else {
        schema_of(s.drop_last(), id)
    }
}

pub proof fn lemma_schema_of_id(s: Seq<Schema>, id: u32)
    ensures
        schema_of(s, id) is Some ==> schema_of(s, id)->Some_0.id == id,
    decreases s.len(),
{
    if s.len() > 0 {
        lemma_schema_of_id(s.drop_last(), id);
    }
}

/// Some layout in `s` is named `name`.
pub open spec fn has_name(s: Seq<Schema>, name: Seq<char>) -> bool {
    exists|i: int| 0 <= i < s.len() && (#[trigger] s[i]).name@ == name
}

/// The id of the layout named `name`, if there is one.
pub open spec fn id_of_name(s: Seq<Schema>, name: Seq<char>) -> Option<u32>
    decreases s.len(),
{
    if s.len() == 0 {
        None
    } else if s.last().name@ == name {
        Some(s.last().id)
    } else {
        id_of_name(s.drop_last(), name)
    }
}

pub proof fn lemma_id_of_name_some(s: Seq<Schema>, name: Seq<char>)
    ensures
        id_of_name(s, name) is Some <==> has_name(s, name),
    decreases s.len(),
{
    if s.len() > 0 {
        lemma_id_of_name_some(s.drop_last(), name);
        if has_name(s, name) && s.last().name@ != name {
            let i = choose|i: int| 0 <= i < s.len() && (#[trigger] s[i]).name@ == name;
            assert(s.drop_last()[i] == s[i]);
        }
        if has_name(s.drop_last(), name) {
            let i = choose|i: int| 0 <= i < s.len() - 1 && (#[trigger] s.drop_last()[i]).name@ == name;
            assert(s[i] == s.drop_last()[i]);
        }
    }
}

/// `m` is the user's view of the stored layout `l`, typed by `types`.
pub open spec fn user_view_of(m: MorpheusSchema, l: Schema, types: Map<u32, SchemaType>) -> bool {
    &&& m.id == l.id && m.name@ == l.name@
    &&& m.schema_type == types[l.id]
    &&& strings_view(m.key_field) == strings_view(l.key_field)
    &&& m.fields@ == l.fields@
    &&& m.is_dynamic == l.is_dynamic
}

/// The layouts in `s` whose schema `types` registers, in order.
pub open spec fn registered_layouts(s: Seq<Schema>, types: Map<u32, SchemaType>) -> Seq<Schema>
    decreases s.len(),
{
    if s.len() == 0 {
        Seq::empty()
    } else if types.contains_key(s.last().id) {
        registered_layouts(s.drop_last(), types).push(s.last())
    } else {
        registered_layouts(s.drop_last(), types)
    }
}

/// The registry map after applying the insertions `s` in order.
pub open spec fn entries_map(s: Seq<(u32, SchemaType)>) -> Map<u32, SchemaType>
    decreases s.len(),
{
    if s.len() == 0 {
        Map::empty()
    } else {
        entries_map(s.drop_last()).insert(s.last().0, s.last().1)
    }
}

/// `c1` is `c0` with schema `schema` registered under the fresh id `id`
/// with type `st`: its layout is the reserved fields of `st`, then the
/// user's fields.
pub open spec fn registered_as(
    c0: SchemaContainer,
    c1: SchemaContainer,
    schema: MorpheusSchema,
    st: SchemaType,
    id: u32,
) -> bool {
    let l = c1.layouts().last();
    &&& id == c0.next_schema_id()
    &&& !c0.types().contains_key(id)
    &&& c1.next_schema_id() == id + 1
    &&& c1.types() == c0.types().insert(id, st)
    &&& c1.layouts().drop_last() == c0.layouts()
    &&& c1.layouts().len() == c0.layouts().len() + 1
    &&& l.id == id && l.name@ == schema.name@ && l.is_dynamic == schema.is_dynamic
    &&& strings_view(l.key_field) == strings_view(schema.key_field)
    &&& l.fields@.len() == template_len(st) + schema.fields@.len()
    &&& is_template_of(st, l.fields@.take(template_len(st)))
    &&& l.fields@.skip(template_len(st)) == schema.fields@
}

/// The schema registry: the type of each schema and the layout the store
/// keeps for it.
pub struct SchemaContainer {
    map: CHashMap<u32, SchemaType>,
    schemas: Vec<Schema>,
    next_id: u32,
}

impl SchemaContainer {
    /// The schema type of each registered schema id.
    pub closed spec fn types(&self) -> Map<u32, SchemaType> {
        type_map_of(self.map)
    }

    /// The registered layouts, oldest first.
    pub closed spec fn layouts(&self) -> Seq<Schema> {
        self.schemas@
    }

    /// The id the next registered schema receives.
    pub closed spec fn next_schema_id(&self) -> u32 {
        self.next_id
    }

    pub closed spec fn wf(&self) -> bool {
        &&& type_map_compact(self.map)
        &&& self.next_id >= FIRST_USER_SCHEMA_ID
        &&& forall|k: u32| #[trigger] self.types().contains_key(k) ==> k < self.next_id || self.next_id
            == u32::MAX
    }

    pub fn new() -> (r: SchemaContainer)
        ensures
            r.wf(),
            r.types() == Map::<u32, SchemaType>::empty(),
            r.layouts() == Seq::<Schema>::empty(),
            r.next_schema_id() == FIRST_USER_SCHEMA_ID,
    {
        let map = type_map_new();
        assert(type_map_of(map) =~= Map::<u32, SchemaType>::empty());
        SchemaContainer { map, schemas: Vec::new(), next_id: FIRST_USER_SCHEMA_ID }
    }

    /// A registry holding the entries that the replicated registry reported,
    /// with no stored layout; fresh ids start above every reported one.
    pub fn from_entries(entries: &Vec<(u32, SchemaType)>) -> (r: SchemaContainer)
        ensures
            r.wf(),
            r.types() == entries_map(entries@),
            r.layouts() == Seq::<Schema>::empty(),
    {
        let mut r = SchemaContainer::new();
        let mut i: usize = 0;
        assert(entries@.take(0) =~= Seq::<(u32, SchemaType)>::empty());
        assert(r.types() =~= entries_map(entries@.take(0)));
        while i < entries.len()
            invariant
                i <= entries@.len(),
                r.wf(),
                r.types() == entries_map(entries@.take(i as int)),
                r.layouts() == Seq::<Schema>::empty(),
            decreases entries@.len() - i,
        {
            assert(entries@.take(i + 1).drop_last() =~= entries@.take(i as int));
            let (id, st) = entries[i];
            r.apply_inserted(id, st);
            i = i + 1;
        }
        assert(entries@.take(entries@.len() as int) =~= entries@);
        r
    }

    /// Records that the replicated registry inserted `schema_id` with type
    /// `schema_type`.
    pub fn apply_inserted(&mut self, schema_id: u32, schema_type: SchemaType)
        requires
            old(self).wf(),
        ensures
            final(self).wf(),
            final(self).types() == old(self).types().insert(schema_id, schema_type),
            final(self).layouts() == old(self).layouts(),
    {
        type_map_insert(&mut self.map, schema_id, schema_type);
        if schema_id >= self.next_id {
            self.next_id = if schema_id < u32::MAX {
                schema_id + 1
            } else {
                u32::MAX
            };
        }
        assert forall|k: u32| #[trigger] self.types().contains_key(k) implies k < self.next_id
            || self.next_id == u32::MAX by {
            assert(k == schema_id || old(self).types().contains_key(k));
        }
    }

    /// Records that the replicated registry removed `schema_id`.
    pub fn apply_removed(&mut self, schema_id: u32)
        requires
            old(self).wf(),
        ensures
            final(self).wf(),
            final(self).types() == old(self).types().remove(schema_id),
            final(self).layouts() == old(self).layouts(),
            final(self).next_schema_id() == old(self).next_schema_id(),
    {
        let _ = type_map_remove(&mut self.map, schema_id);
        type_map_shrink(&mut self.map);
        assert forall|k: u32| #[trigger] self.types().contains_key(k) implies k < self.next_id
            || self.next_id == u32::MAX by {
            assert(old(self).types().contains_key(k));
        }
    }

    /// The type of schema `schema_id`, if it is registered.
    pub fn schema_type(&self, schema_id: u32) -> (r: Option<SchemaType>)
        requires
            self.wf(),
        ensures
            r == self.types().get(schema_id),
    {
        type_map_get(&self.map, schema_id)
    }

    /// The store layout of schema `schema_id`, if there is one.
    pub fn get_neb_schema(&self, schema_id: u32) -> (r: Option<Schema>)
        ensures
            match (r, schema_of(self.layouts(), schema_id)) {
                (Some(a), Some(b)) => same_schema(a, b),
                (None, None) => true,
                _ => false,
            },
    {
        let mut i: usize = self.schemas.len();
        assert(self.schemas@.take(i as int) =~= self.schemas@);
        while i > 0
            invariant
                i <= self.schemas@.len(),
                schema_of(self.schemas@.take(i as int), schema_id) == schema_of(self.schemas@, schema_id),
            decreases i,
        {
            assert(self.schemas@.take(i as int).drop_last() =~= self.schemas@.take(i - 1));
            if self.schemas[i - 1].id == schema_id {
                return Some(self.schemas[i - 1].copy());
            }
            i = i - 1;
        }
        None
    }

    /// The id of the layout named `name`.
    pub fn id_from_name(&self, name: &str) -> (r: Option<u32>)
        ensures
            r == id_of_name(self.layouts(), name@),
    {
        let wanted = name.to_owned();
        let mut i: usize = self.schemas.len();
        assert(self.schemas@.take(i as int) =~= self.schemas@);
        while i > 0
            invariant
                i <= self.schemas@.len(),
                wanted@ == name@,
                id_of_name(self.schemas@.take(i as int), name@) == id_of_name(self.schemas@, name@),
            decreases i,
        {
            assert(self.schemas@.take(i as int).drop_last() =~= self.schemas@.take(i - 1));
            if self.schemas[i - 1].name == wanted {
                return Some(self.schemas[i - 1].id);
            }
            i = i - 1;
        }
        None
    }

    /// Registers a schema: its stored layout gets the reserved fields of its
    /// type, and the registry records the type under a fresh id.
    pub fn new_schema(&mut self, schema: MorpheusSchema) -> (r: Result<u32, SchemaError>)
        requires
            old(self).wf(),
        ensures
            final(self).wf(),
            schema.schema_type == SchemaType::Unspecified ==> r == Err::<u32, SchemaError>(
                SchemaError::SchemaTypeUnspecified,
            ),
            is_simple_with_fields(schema.schema_type, schema.fields@.len() as int) ==> r == Err::<
                u32,
                SchemaError,
            >(SchemaError::SimpleEdgeShouldNotHaveSchema),
            schema.schema_type != SchemaType::Unspecified && !is_simple_with_fields(
                schema.schema_type,
                schema.fields@.len() as int,
            ) ==> (r is Ok <==> !(has_name(old(self).layouts(), schema.name@) || old(self).next_schema_id()
                == u32::MAX)) && (r is Err ==> r == Err::<u32, SchemaError>(
                SchemaError::NewNebSchemaExecError,
            )),
            r is Err ==> *final(self) == *old(self),
            r is Ok ==> registered_as(*old(self), *final(self), schema, schema.schema_type, r->Ok_0),
    {
        let MorpheusSchema { id: _, name, schema_type, key_field, fields, is_dynamic } = schema;
        let ghost user_fields = fields@;
        let schema_fields = match cell_fields(schema_type, fields) {
            Ok(f) => f,
            Err(e) => return Err(e),
        };
        let taken = self.id_from_name(name.as_str());
        proof {
            lemma_id_of_name_some(self.layouts(), name@);
        }
        if taken.is_some() || self.next_id == u32::MAX {
            return Err(SchemaError::NewNebSchemaExecError);
        }
        let id = self.next_id;
        let layout = Schema { id, name, key_field, fields: schema_fields, is_dynamic };
        self.schemas.push(layout);
        type_map_insert(&mut self.map, id, schema_type);
        self.next_id = id + 1;
        assert(self.schemas@.drop_last() =~= old(self).schemas@);
        assert forall|k: u32| #[trigger] self.types().contains_key(k) implies k < self.next_id by {
            assert(k == id || old(self).types().contains_key(k));
        }
        Ok(id)
    }

    /// Stores a layout under its own id, leaving the registry as it is.
    pub fn new_schema_with_id(&mut self, schema: Schema)
        requires
            old(self).wf(),
        ensures
            final(self).wf(),
            final(self).types() == old(self).types(),
            final(self).next_schema_id() == old(self).next_schema_id(),
            final(self).layouts() == old(self).layouts().push(schema),
    {
        self.schemas.push(schema);
        assert(self.types() == old(self).types());
    }

    /// The user's view of a stored layout, if its schema is registered.
    pub fn neb_to_morpheus_schema(&self, schema: &Schema) -> (r: Option<MorpheusSchema>)
        requires
            self.wf(),
        ensures
            r is Some <==> self.types().contains_key(schema.id),
            r is Some ==> {
                let m = r->Some_0;
                &&& m.id == schema.id && m.name@ == schema.name@
                &&& m.schema_type == self.types()[schema.id]
                &&& strings_view(m.key_field) == strings_view(schema.key_field)
                &&& m.fields@ == schema.fields@
                &&& m.is_dynamic == schema.is_dynamic
            },
    {
        match self.schema_type(schema.id) {
            Some(schema_type) => Some(MorpheusSchema {
                id: schema.id,
                name: schema.name.clone(),
                schema_type,
                key_field: copy_strings(schema.key_field.as_ref()),
                fields: copy_fields(&schema.fields),
                is_dynamic: schema.is_dynamic,
            }),
            None => None,
        }
    }

    /// The registered schema named `name`, as users see it.
    pub fn from_name(&self, name: &str) -> (r: Option<MorpheusSchema>)
        requires
            self.wf(),
        ensures
            ({
                let id = match id_of_name(self.layouts(), name@) {
                    Some(i) => i,
                    None => 0,
                };
                &&& r is Some <==> (schema_of(self.layouts(), id) is Some
                    && self.types().contains_key(id))
                &&& r is Some ==> {
                    let l = schema_of(self.layouts(), id)->Some_0;
                    let m = r->Some_0;
                    &&& m.id == id && m.schema_type == self.types()[id]
                    &&& m.name@ == l.name@ && m.fields@ == l.fields@ && m.is_dynamic == l.is_dynamic
                    &&& strings_view(m.key_field) == strings_view(l.key_field)
                }
            }),
    {
        let schema_id = match self.id_from_name(name) {
            Some(i) => i,
            None => 0,
        };
        proof {
            lemma_schema_of_id(self.layouts(), schema_id);
        }
        match self.get_neb_schema(schema_id) {
            Some(neb_schema) => self.neb_to_morpheus_schema(&neb_schema),
            None => None,
        }
    }

    /// Every stored layout whose schema is registered, in storing order.
    pub fn all_morpheus_schemas(&self) -> (r: Vec<MorpheusSchema>)
        requires
            self.wf(),
        ensures
            r@.len() == registered_layouts(self.layouts(), self.types()).len(),
            forall|i: int|
                0 <= i < r@.len() ==> user_view_of(
                    #[trigger] r@[i],
                    registered_layouts(self.layouts(), self.types())[i],
                    self.types(),
                ),
    {
        let mut r: Vec<MorpheusSchema> = Vec::new();
        let mut i: usize = 0;
        while i < self.schemas.len()
            invariant
                i <= self.schemas@.len(),
                self.wf(),
                r@.len() == registered_layouts(self.schemas@.take(i as int), self.types()).len(),
                forall|j: int|
                    0 <= j < r@.len() ==> user_view_of(
                        #[trigger] r@[j],
                        registered_layouts(self.schemas@.take(i as int), self.types())[j],
                        self.types(),
                    ),
            decreases self.schemas@.len() - i,
        {
            assert(self.schemas@.take(i + 1).drop_last() =~= self.schemas@.take(i as int));
            match self.neb_to_morpheus_schema(&self.schemas[i]) {
                Some(m) => r.push(m),
                None => {},
            }
            i = i + 1;
        }
        assert(self.schemas@.take(self.schemas@.len() as int) =~= self.schemas@);
        r
    }

    /// The number of registered schemas that have a stored layout.
    pub fn count(&self) -> (r: usize)
        requires
            self.wf(),
        ensures
            r == registered_layouts(self.layouts(), self.types()).len(),
    {
        self.all_morpheus_schemas().len()
    }
}

/// Anything that names a schema: its id, a schema, or a schema's name.
pub trait ToSchemaId {
    /// The schema id this value names under `schemas`.
    spec fn schema_id_of(&self, schemas: &SchemaContainer) -> u32;

    fn to_id(&self, schemas: &SchemaContainer) -> (r: u32)
        ensures
            r == self.schema_id_of(schemas),
    ;
}

impl ToSchemaId for u32 {
    open spec fn schema_id_of(&self, schemas: &SchemaContainer) -> u32 {
        *self
    }

    fn to_id(&self, schemas: &SchemaContainer) -> (r: u32) {
        *self
    }
}

impl ToSchemaId for MorpheusSchema {
    open spec fn schema_id_of(&self, schemas: &SchemaContainer) -> u32 {
        self.id
    }

    fn to_id(&self, schemas: &SchemaContainer) -> (r: u32) {
        self.id
    }
}

impl ToSchemaId for Schema {
    open spec fn schema_id_of(&self, schemas: &SchemaContainer) -> u32 {
        self.id
    }

    fn to_id(&self, schemas: &SchemaContainer) -> (r: u32) {
        self.id
    }
}

impl ToSchemaId for String {
    /// A name stands for the id of the layout so named, or 0 where none is.
    open spec fn schema_id_of(&self, schemas: &SchemaContainer) -> u32 {
        match id_of_name(schemas.layouts(), self@) {
            Some(i) => i,
            None => 0,
        }
    }

    fn to_id(&self, schemas: &SchemaContainer) -> (r: u32) {
        match schemas.id_from_name(self.as_str()) {
            Some(i) => i,
            None => 0,
        }
    }
}

} // verus!
