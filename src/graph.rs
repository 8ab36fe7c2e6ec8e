use vstd::prelude::*;
use crate::types::{Id, Value, Body, value_type, field_of, get_field, insert_key_id, unit_id_spec};
use crate::fields::{
    INBOUND_KEY_ID, OUTBOUND_KEY_ID, UNDIRECTED_KEY_ID, VERTEX_FROM_KEY_ID, VERTEX_TO_KEY_ID,
    VERTEX_A_KEY_ID, VERTEX_B_KEY_ID, NEXT_KEY_ID, VALUE_KEY_ID, TYPE_KEY_ID, ID_LIST_SCHEMA_ID,
    TYPE_LIST_SCHEMA_ID,
};
use crate::types::{TYPE_ID, TYPE_U32};
use crate::schema::{
    EdgeAttributes, EdgeType, Field, MorpheusSchema, Schema, SchemaContainer, SchemaError,
    SchemaType, ToSchemaId, schema_of,
};
use crate::store::{Cell, CellStore, ListKey, same_cell};

verus! {

#[derive(Debug)]
pub enum NewVertexError {
    SchemaNotFound,
    SchemaNotVertex(SchemaType),
    CannotGenerateCellByData,
    WriteError,
}

#[derive(Debug)]
pub enum ReadVertexError {
    ReadError,
}

#[derive(Debug)]
pub enum EdgeError {
    CannotFindSchema,
    WrongSchema,
    IdListError,
    FilterEvalError(String),
    ReadError,
}

#[derive(Debug)]
pub enum LinkVerticesError {
    EdgeSchemaNotFound,
    SchemaNotEdge,
    BodyRequired,
    BodyShouldNotExisted,
    EdgeError(EdgeError),
}

#[derive(Debug)]
pub enum NeighbourhoodError {
    EdgeError(EdgeError),
    VertexNotFound(Id),
    CannotFindOppositeId(Id),
    FilterEvalError(String),
}

#[derive(Debug)]
pub enum RemoveError {
    VertexNotFound,
}

/// Failures of the store itself, as opposed to graph-level errors.
#[derive(Clone, Copy, Debug, PartialEq, Eq, Structural)]
pub enum TxnError {
    /// The store can hand out no further cell id.
    Aborted,
}

#[derive(Clone, Copy, Debug, PartialEq, Eq, Structural)]
pub enum CellType {
    Vertex,
    Edge(EdgeType),
}

#[derive(Clone, Copy, Debug, PartialEq, Eq, Structural)]
pub enum EdgeDirection {
    Inbound,
    Outbound,
    Undirected,
}

/// The vertex slot field that holds the lists of a direction.
pub open spec fn slot_of(d: EdgeDirection) -> u64 {
    match d {
        EdgeDirection::Inbound => INBOUND_KEY_ID,
        EdgeDirection::Outbound => OUTBOUND_KEY_ID,
        EdgeDirection::Undirected => UNDIRECTED_KEY_ID,
    }
}

impl EdgeDirection {
    pub fn as_field(&self) -> (r: u64)
        ensures
            r == slot_of(*self),
    {
        match self {
            EdgeDirection::Inbound => INBOUND_KEY_ID,
            EdgeDirection::Outbound => OUTBOUND_KEY_ID,
            EdgeDirection::Undirected => UNDIRECTED_KEY_ID,
        }
    }
}

/// The id-list of vertex `v` for direction `d` under edge schema `s`.
pub open spec fn key_of(v: Id, d: EdgeDirection, s: u32) -> ListKey {
    ListKey { owner: v, slot: slot_of(d), schema: s }
}

/// A vertex: the id, schema and body of its cell.
pub struct Vertex {
    pub id: Id,
    pub schema: u32,
    pub data: Body,
}

/// What a vertex holds, as plain values.
pub open spec fn vertex_model(v: Vertex) -> (Id, u32, Seq<(u64, Value)>) {
    (v.id, v.schema, v.data@)
}

impl Vertex {
    /// A vertex of `schema` with body `data` and no id yet.
    pub fn new(schema: u32, data: Body) -> (r: Vertex)
        ensures
            r.id == unit_id_spec(),
            r.schema == schema,
            r.data == data,
    {
        Vertex { id: Id::unit_id(), schema, data }
    }

    pub fn schema(&self) -> (r: u32)
        ensures
            r == self.schema,
    {
        self.schema
    }
}

pub fn cell_to_vertex(cell: Cell) -> (r: Vertex)
    ensures
        r.id == cell.id,
        r.schema == cell.schema,
        r.data == cell.data,
{
    Vertex { id: cell.id, schema: cell.schema, data: cell.data }
}

/// An edge. Edges of a schema with a body carry their cell; simple edges
/// carry none and are known by their endpoints alone.
pub enum Edge {
    Directed { schema: u32, from: Id, to: Id, cell: Option<Cell> },
    Undirected { schema: u32, a: Id, b: Id, cell: Option<Cell> },
}

/// What an edge holds, as plain values: its kind, schema, endpoints, and
/// the id and body of its cell where it has one.
pub struct EdgeModel {
    pub edge_type: EdgeType,
    pub schema: u32,
    pub ends: (Id, Id),
    pub cell: Option<(Id, Seq<(u64, Value)>)>,
}

pub open spec fn cell_model(c: Option<Cell>) -> Option<(Id, Seq<(u64, Value)>)> {
    match c {
        Some(c) => Some((c.id, c.data@)),
        None => None,
    }
}

pub open spec fn edge_model(e: Edge) -> EdgeModel {
    match e {
        Edge::Directed { schema, from, to, cell } => EdgeModel {
            edge_type: EdgeType::Directed,
            schema,
            ends: (from, to),
            cell: cell_model(cell),
        },
        Edge::Undirected { schema, a, b, cell } => EdgeModel {
            edge_type: EdgeType::Undirected,
            schema,
            ends: (a, b),
            cell: cell_model(cell),
        },
    }
}

/// The endpoint of `e` across from `v`, if `v` is an endpoint.
pub open spec fn opposite(e: EdgeModel, v: Id) -> Option<Id> {
    if v == e.ends.0 {
        Some(e.ends.1)
    } else if v == e.ends.1 {
        Some(e.ends.0)
    } else {
        None
    }
}

impl Edge {
    pub fn schema_id(&self) -> (r: u32)
        ensures
            r == edge_model(*self).schema,
    {
        match self {
            Edge::Directed { schema, .. } => *schema,
            Edge::Undirected { schema, .. } => *schema,
        }
    }

    pub fn edge_kind(&self) -> (r: EdgeType)
        ensures
            r == edge_model(*self).edge_type,
    {
        match self {
            Edge::Directed { .. } => EdgeType::Directed,
            Edge::Undirected { .. } => EdgeType::Undirected,
        }
    }

    pub fn endpoints(&self) -> (r: (Id, Id))
        ensures
            r == edge_model(*self).ends,
    {
        match self {
            Edge::Directed { from, to, .. } => (*from, *to),
            Edge::Undirected { a, b, .. } => (*a, *b),
        }
    }

    /// The body of the edge's cell; simple edges have none.
    pub fn body(&self) -> (r: Option<&Body>)
        ensures
            match (r, edge_model(*self).cell) {
                (Some(b), Some(c)) => b@ == c.1,
                (None, None) => true,
                _ => false,
            },
    {
        match self {
            Edge::Directed { cell, .. } => match cell {
                Some(c) => Some(&c.data),
                None => None,
            },
            Edge::Undirected { cell, .. } => match cell {
                Some(c) => Some(&c.data),
                None => None,
            },
        }
    }

    /// The endpoint across from `v`; a self-loop is its own opposite.
    pub fn one_opposite_id_vertex_id(&self, v: Id) -> (r: Option<Id>)
        ensures
            r == opposite(edge_model(*self), v),
    {
        let (x, y) = self.endpoints();
        if v == x {
            Some(y)
        } else if v == y {
            Some(x)
        } else {
            None
        }
    }
}

/// What a filter reads: an integer field of the edge's body or of the
/// opposite vertex's body.
pub enum Operand {
    EdgeField(u64),
    VertexField(u64),
}

/// A filter expression over an edge and, for neighbourhoods, the vertex
/// across from it.
pub enum Expr {
    Const(bool),
    Gt(Operand, i64),
    Lt(Operand, i64),
    Eq(Operand, i64),
    Not(Box<Expr>),
    And(Box<Expr>, Box<Expr>),
    Or(Box<Expr>, Box<Expr>),
}

/// The integer an operand reads; `None` where the body or the field is
/// missing or the field holds no `I64`.
pub open spec fn operand_value(
    o: Operand,
    edge: Option<Seq<(u64, Value)>>,
    vertex: Option<Seq<(u64, Value)>>,
) -> Option<i64> {
    let (body, k) = match o {
        Operand::EdgeField(k) => (edge, k),
        Operand::VertexField(k) => (vertex, k),
    };
    match body {
        Some(b) => match field_of(b, k) {
            Some(Value::I64(i)) => Some(i),
            _ => None,
        },
        None => None,
    }
}

/// The value of `x`; `None` where evaluation fails.
pub open spec fn eval_expr(
    x: Expr,
    edge: Option<Seq<(u64, Value)>>,
    vertex: Option<Seq<(u64, Value)>>,
) -> Option<bool>
    decreases x,
{
    match x {
        Expr::Const(b) => Some(b),
        Expr::Gt(o, c) => match operand_value(o, edge, vertex) {
            Some(i) => Some(i > c),
            None => None,
        },
        Expr::Lt(o, c) => match operand_value(o, edge, vertex) {
            Some(i) => Some(i < c),
            None => None,
        },
        Expr::Eq(o, c) => match operand_value(o, edge, vertex) {
            Some(i) => Some(i == c),
            None => None,
        },
        Expr::Not(a) => match eval_expr(*a, edge, vertex) {
            Some(b) => Some(!b),
            None => None,
        },
        Expr::And(a, b) => match (eval_expr(*a, edge, vertex), eval_expr(*b, edge, vertex)) {
            (Some(p), Some(q)) => Some(p && q),
            _ => None,
        },
        Expr::Or(a, b) => match (eval_expr(*a, edge, vertex), eval_expr(*b, edge, vertex)) {
            (Some(p), Some(q)) => Some(p || q),
            _ => None,
        },
    }
}

/// The outcome of an optional filter; no filter lets everything pass.
pub open spec fn filter_outcome(
    filter: Option<Expr>,
    edge: Option<Seq<(u64, Value)>>,
    vertex: Option<Seq<(u64, Value)>>,
) -> Option<bool> {
    match filter {
        Some(x) => eval_expr(x, edge, vertex),
        None => Some(true),
    }
}

fn operand_eval(o: &Operand, edge: Option<&Body>, vertex: Option<&Body>) -> (r: Option<i64>)
    ensures
        r == operand_value(
            *o,
            match edge {
                Some(b) => Some(b@),
                None => None,
            },
            match vertex {
                Some(b) => Some(b@),
                None => None,
            },
        ),
{
    let (body, k) = match o {
        Operand::EdgeField(k) => (edge, *k),
        Operand::VertexField(k) => (vertex, *k),
    };
    match body {
        Some(b) => match get_field(b, k) {
            Some(Value::I64(i)) => Some(i),
            _ => None,
        },
        None => None,
    }
}

pub fn eval_expr_exec(x: &Expr, edge: Option<&Body>, vertex: Option<&Body>) -> (r: Result<bool, String>)
    ensures
        ({
            let e = match edge {
                Some(b) => Some(b@),
                None => None,
            };
            let v = match vertex {
                Some(b) => Some(b@),
                None => None,
            };
            &&& r is Ok <==> eval_expr(*x, e, v) is Some
            &&& r is Ok ==> eval_expr(*x, e, v) == Some(r->Ok_0)
        }),
    decreases x,
{
    match x {
        Expr::Const(b) => Ok(*b),
        Expr::Gt(o, c) => match operand_eval(o, edge, vertex) {
            Some(i) => Ok(i > *c),
            None => Err("filter reads a missing or non-integer field".to_owned()),
        },
        Expr::Lt(o, c) => match operand_eval(o, edge, vertex) {
            Some(i) => Ok(i < *c),
            None => Err("filter reads a missing or non-integer field".to_owned()),
        },
        Expr::Eq(o, c) => match operand_eval(o, edge, vertex) {
            Some(i) => Ok(i == *c),
            None => Err("filter reads a missing or non-integer field".to_owned()),
        },
        Expr::Not(a) => match eval_expr_exec(a, edge, vertex) {
            Ok(b) => Ok(!b),
            Err(e) => Err(e),
        },
        Expr::And(a, b) => {
            let p = eval_expr_exec(a, edge, vertex);
            let q = eval_expr_exec(b, edge, vertex);
            match (p, q) {
                (Ok(p), Ok(q)) => Ok(p && q),
                (Err(e), _) => Err(e),
                (_, Err(e)) => Err(e),
            }
        },
        Expr::Or(a, b) => {
            let p = eval_expr_exec(a, edge, vertex);
            let q = eval_expr_exec(b, edge, vertex);
            match (p, q) {
                (Ok(p), Ok(q)) => Ok(p || q),
                (Err(e), _) => Err(e),
                (_, Err(e)) => Err(e),
            }
        },
    }
}

/// The body a filter sees of an edge: its cell's body, if it has one.
pub open spec fn edge_body(e: EdgeModel) -> Option<Seq<(u64, Value)>> {
    match e.cell {
        Some(c) => Some(c.1),
        None => None,
    }
}

/// Evaluates an optional filter against an edge.
pub fn eval_with_edge(filter: &Option<Expr>, e: &Edge) -> (r: Result<bool, String>)
    ensures
        r is Ok <==> filter_outcome(*filter, edge_body(edge_model(*e)), None) is Some,
        r is Ok ==> filter_outcome(*filter, edge_body(edge_model(*e)), None) == Some(r->Ok_0),
{
    match filter {
        None => Ok(true),
        Some(x) => eval_expr_exec(x, e.body(), None),
    }
}

/// Evaluates an optional filter against an edge and the vertex across it.
pub fn eval_with_edge_and_vertex(filter: &Option<Expr>, v: &Vertex, e: &Edge) -> (r: Result<bool, String>)
    ensures
        r is Ok <==> filter_outcome(*filter, edge_body(edge_model(*e)), Some(v.data@)) is Some,
        r is Ok ==> filter_outcome(*filter, edge_body(edge_model(*e)), Some(v.data@)) == Some(r->Ok_0),
{
    match filter {
        None => Ok(true),
        Some(x) => eval_expr_exec(x, e.body(), Some(&v.data)),
    }
}

/// A field's value fits its layout entry: present with the field's type,
/// or absent or null where the field is nullable.
pub open spec fn field_fits(f: Field, v: Option<Value>) -> bool {
    match v {
        Some(Value::Null) => f.nullable,
        None => f.nullable,
        Some(x) => value_type(x) == Some(f.type_id),
    }
}

/// `body` satisfies every field of a layout.
pub open spec fn conforms(fields: Seq<Field>, body: Seq<(u64, Value)>) -> bool {
    forall|i: int| 0 <= i < fields.len() ==> field_fits(#[trigger] fields[i], field_of(body, fields[i].key_id))
}

fn check_conforms(fields: &Vec<Field>, body: &Body) -> (r: bool)
    ensures
        r == conforms(fields@, body@),
{
    let mut i: usize = 0;
    while i < fields.len()
        invariant
            i <= fields@.len(),
            forall|j: int| 0 <= j < i ==> field_fits(#[trigger] fields@[j], field_of(body@, fields@[j].key_id)),
        decreases fields@.len() - i,
    {
        let f = &fields[i];
        let ok = match get_field(body, f.key_id) {
            Some(Value::Null) => f.nullable,
            None => f.nullable,
            Some(x) => match x.type_id() {
                Some(t) => t == f.type_id,
                None => false,
            },
        };
        if !ok {
            return false;
        }
        i = i + 1;
    }
    true
}

/// A vertex body with its three adjacency slots set to the unit id.
pub open spec fn with_empty_slots(data: Seq<(u64, Value)>) -> Seq<(u64, Value)> {
    data + seq![
        (INBOUND_KEY_ID, Value::Id(unit_id_spec())),
        (OUTBOUND_KEY_ID, Value::Id(unit_id_spec())),
        (UNDIRECTED_KEY_ID, Value::Id(unit_id_spec())),
    ]
}

/// Why a vertex of `schema` with body `data` cannot be written, if it cannot.
pub open spec fn vertex_write_error(
    types: Map<u32, SchemaType>,
    layouts: Seq<Schema>,
    schema: u32,
    data: Seq<(u64, Value)>,
) -> Option<NewVertexError> {
    match types.get(schema) {
        None => Some(NewVertexError::SchemaNotFound),
        Some(SchemaType::Vertex) => match schema_of(layouts, schema) {
            None => Some(NewVertexError::SchemaNotFound),
            Some(l) => if conforms(l.fields@, with_empty_slots(data)) {
                None
            } else {
                Some(NewVertexError::CannotGenerateCellByData)
            },
        },
        Some(st) => Some(NewVertexError::SchemaNotVertex(st)),
    }
}

/// The cell to write for a new vertex: its body with empty adjacency slots,
/// checked against the layout of its schema.
pub fn vertex_to_cell_for_write(schemas: &SchemaContainer, vertex: Vertex) -> (r: Result<Cell, NewVertexError>)
    requires
        schemas.wf(),
    ensures
        match vertex_write_error(schemas.types(), schemas.layouts(), vertex.schema, vertex.data@) {
            Some(e) => r == Err::<Cell, NewVertexError>(e),
            None => r is Ok && r->Ok_0.id == vertex.id && r->Ok_0.schema == vertex.schema
                && r->Ok_0.data@ == with_empty_slots(vertex.data@),
        },
{
    let schema_id = vertex.schema();
    match schemas.schema_type(schema_id) {
        Some(stype) => {
            if stype != SchemaType::Vertex {
                return Err(NewVertexError::SchemaNotVertex(stype));
            }
        },
        None => return Err(NewVertexError::SchemaNotFound),
    }
    let neb_schema = match schemas.get_neb_schema(schema_id) {
        Some(schema) => schema,
        None => return Err(NewVertexError::SchemaNotFound),
    };
    let Vertex { id, schema, data } = vertex;
    let mut data = data;
    let ghost d0 = data@;
    insert_key_id(&mut data, INBOUND_KEY_ID, Value::Id(Id::unit_id()));
    insert_key_id(&mut data, OUTBOUND_KEY_ID, Value::Id(Id::unit_id()));
    insert_key_id(&mut data, UNDIRECTED_KEY_ID, Value::Id(Id::unit_id()));
    assert(data@ =~= with_empty_slots(d0));
    if check_conforms(&neb_schema.fields, &data) {
        Ok(Cell { id, schema, data })
    } else {
        Err(NewVertexError::CannotGenerateCellByData)
    }
}

/// The field ids that hold the two endpoints of an edge cell.
pub open spec fn endpoint_keys(t: EdgeType) -> (u64, u64) {
    match t {
        EdgeType::Directed => (VERTEX_FROM_KEY_ID, VERTEX_TO_KEY_ID),
        EdgeType::Undirected => (VERTEX_A_KEY_ID, VERTEX_B_KEY_ID),
    }
}

/// The edge that entry `entry` of the list `(owner, slot, schema)` stands
/// for: a simple edge is made from the entry itself, an edge with a body is
/// read from its cell.
pub open spec fn edge_from_entry(
    cells: Map<Id, Cell>,
    ea: EdgeAttributes,
    owner: Id,
    slot: u64,
    schema: u32,
    entry: Id,
) -> Result<EdgeModel, EdgeError> {
    if !ea.has_body {
        let ends = if ea.edge_type == EdgeType::Directed && slot == INBOUND_KEY_ID {
            (entry, owner)
        } else {
            (owner, entry)
        };
        Ok(EdgeModel { edge_type: ea.edge_type, schema, ends, cell: None })
    } else if !cells.contains_key(entry) {
        Err(EdgeError::ReadError)
    } else if cells[entry].schema != schema {
        Err(EdgeError::WrongSchema)
    } else {
        let data = cells[entry].data@;
        let (k1, k2) = endpoint_keys(ea.edge_type);
        match (field_of(data, k1), field_of(data, k2)) {
            (Some(Value::Id(x)), Some(Value::Id(y))) => Ok(
                EdgeModel { edge_type: ea.edge_type, schema, ends: (x, y), cell: Some((entry, data)) },
            ),
            _ => Err(EdgeError::WrongSchema),
        }
    }
}

fn endpoint_fields(t: EdgeType) -> (r: (u64, u64))
    ensures
        r == endpoint_keys(t),
{
    match t {
        EdgeType::Directed => (VERTEX_FROM_KEY_ID, VERTEX_TO_KEY_ID),
        EdgeType::Undirected => (VERTEX_A_KEY_ID, VERTEX_B_KEY_ID),
    }
}

/// Rebuilds the edge that a list entry stands for.
pub fn from_id(store: &CellStore, ea: EdgeAttributes, owner: Id, slot: u64, schema: u32, id: Id) -> (r: Result<Edge, EdgeError>)
    requires
        store.wf(),
    ensures
        match r {
            Ok(e) => edge_from_entry(store.cells(), ea, owner, slot, schema, id) == Ok::<
                EdgeModel,
                EdgeError,
            >(edge_model(e)),
            Err(e) => edge_from_entry(store.cells(), ea, owner, slot, schema, id) == Err::<
                EdgeModel,
                EdgeError,
            >(e),
        },
{
    if !ea.has_body {
        return Ok(
            match ea.edge_type {
                EdgeType::Directed => if slot == INBOUND_KEY_ID {
                    Edge::Directed { schema, from: id, to: owner, cell: None }
                } else {
                    Edge::Directed { schema, from: owner, to: id, cell: None }
                },
                EdgeType::Undirected => Edge::Undirected { schema, a: owner, b: id, cell: None },
            },
        );
    }
    let cell = match store.read(id) {
        Some(c) => c,
        None => return Err(EdgeError::ReadError),
    };
    if cell.schema != schema {
        return Err(EdgeError::WrongSchema);
    }
    let (k1, k2) = endpoint_fields(ea.edge_type);
    let x = match get_field(&cell.data, k1) {
        Some(Value::Id(x)) => x,
        _ => return Err(EdgeError::WrongSchema),
    };
    let y = match get_field(&cell.data, k2) {
        Some(Value::Id(y)) => y,
        _ => return Err(EdgeError::WrongSchema),
    };
    match ea.edge_type {
        EdgeType::Directed => Ok(Edge::Directed { schema, from: x, to: y, cell: Some(cell) }),
        EdgeType::Undirected => Ok(Edge::Undirected { schema, a: x, b: y, cell: Some(cell) }),
    }
}

/// Looks up the attributes of edge schema `schema`.
pub fn edge_attr_from_schema(schema: u32, schemas: &SchemaContainer) -> (r: Result<(u32, EdgeAttributes), EdgeError>)
    requires
        schemas.wf(),
    ensures
        match schemas.types().get(schema) {
            Some(SchemaType::Edge(ea)) => r == Ok::<(u32, EdgeAttributes), EdgeError>((schema, ea)),
            Some(_) => r == Err::<(u32, EdgeAttributes), EdgeError>(EdgeError::WrongSchema),
            None => r == Err::<(u32, EdgeAttributes), EdgeError>(EdgeError::CannotFindSchema),
        },
{
    match schemas.schema_type(schema) {
        Some(SchemaType::Edge(ea)) => Ok((schema, ea)),
        Some(_) => Err(EdgeError::WrongSchema),
        None => Err(EdgeError::CannotFindSchema),
    }
}

/// Why a list of `vertex` under `schema` cannot be read, if it cannot: the
/// schema must be an edge schema and the owning vertex must exist.
pub open spec fn list_access_error(
    types: Map<u32, SchemaType>,
    cells: Map<Id, Cell>,
    vertex: Id,
    schema: u32,
) -> Option<EdgeError> {
    match types.get(schema) {
        Some(SchemaType::Edge(_)) => if cells.contains_key(vertex) {
            None
        } else {
            Some(EdgeError::IdListError)
        },
        Some(_) => Some(EdgeError::WrongSchema),
        None => Some(EdgeError::CannotFindSchema),
    }
}

/// Appends `x` to list `k`.
pub open spec fn append_entry(m: Map<ListKey, Seq<Id>>, k: ListKey, x: Id) -> Map<ListKey, Seq<Id>> {
    m.insert(k, m[k].push(x))
}

/// The lists after linking `from` to `to` under `schema`: an edge with a
/// body is listed by its id `eid`, a simple edge by the opposite vertex. An
/// undirected self-loop is listed once.
pub open spec fn link_lists(
    m: Map<ListKey, Seq<Id>>,
    ea: EdgeAttributes,
    from: Id,
    schema: u32,
    to: Id,
    eid: Id,
) -> Map<ListKey, Seq<Id>> {
    let (at_from, at_to) = if ea.has_body {
        (eid, eid)
    } else {
        (to, from)
    };
    match ea.edge_type {
        EdgeType::Directed => append_entry(
            append_entry(m, key_of(from, EdgeDirection::Outbound, schema), at_from),
            key_of(to, EdgeDirection::Inbound, schema),
            at_to,
        ),
        EdgeType::Undirected => if from == to {
            append_entry(m, key_of(from, EdgeDirection::Undirected, schema), at_from)
        } else {
            append_entry(
                append_entry(m, key_of(from, EdgeDirection::Undirected, schema), at_from),
                key_of(to, EdgeDirection::Undirected, schema),
                at_to,
            )
        },
    }
}

/// The body of a new edge cell: the user's fields, then the endpoints.
pub open spec fn edge_cell_data(t: EdgeType, body: Seq<(u64, Value)>, from: Id, to: Id) -> Seq<(u64, Value)> {
    body.push((endpoint_keys(t).0, Value::Id(from))).push((endpoint_keys(t).1, Value::Id(to)))
}

/// Why `link(from, schema, to, body)` fails, if it does: a graph-level
/// error, or a store failure when no id is left for the edge cell.
pub open spec fn link_failure(
    types: Map<u32, SchemaType>,
    store: CellStore,
    from: Id,
    schema: u32,
    to: Id,
    has_body: bool,
) -> Option<Result<LinkVerticesError, TxnError>> {
    match types.get(schema) {
        None => Some(Ok(LinkVerticesError::EdgeSchemaNotFound)),
        Some(SchemaType::Edge(ea)) => if !ea.has_body && has_body {
            Some(Ok(LinkVerticesError::BodyShouldNotExisted))
        } else if ea.has_body && !has_body {
            Some(Ok(LinkVerticesError::BodyRequired))
        } else if !store.cells().contains_key(from) || !store.cells().contains_key(to) {
            Some(Ok(LinkVerticesError::EdgeError(EdgeError::IdListError)))
        } else if ea.has_body && store.next_id() == u64::MAX {
            Some(Err(TxnError::Aborted))
        } else {
            None
        },
        Some(_) => Some(Ok(LinkVerticesError::SchemaNotEdge)),
    }
}

/// The edges that the entries `ids` of list `(owner, slot, schema)` stand
/// for and that pass `filter`, in list order; the first failure otherwise
/// (`Err(None)`: the filter could not be evaluated).
pub open spec fn edges_outcome(
    cells: Map<Id, Cell>,
    ea: EdgeAttributes,
    owner: Id,
    slot: u64,
    schema: u32,
    ids: Seq<Id>,
    filter: Option<Expr>,
) -> Result<Seq<EdgeModel>, Option<EdgeError>>
    decreases ids.len(),
{
    if ids.len() == 0 {
        Ok(Seq::empty())
    } else {
        match edges_outcome(cells, ea, owner, slot, schema, ids.drop_last(), filter) {
            Err(e) => Err(e),
            Ok(prev) => match edge_from_entry(cells, ea, owner, slot, schema, ids.last()) {
                Err(e) => Err(Some(e)),
                Ok(m) => match filter_outcome(filter, edge_body(m), None) {
                    None => Err(None),
                    Some(true) => Ok(prev.push(m)),
                    Some(false) => Ok(prev),
                },
            },
        }
    }
}

/// What a vertex holds, as plain values: its id, schema and body.
pub type VertexModel = (Id, u32, Seq<(u64, Value)>);

/// As `edges_outcome`, each edge paired with the vertex across from it,
/// which the filter also sees.
pub open spec fn neighbourhoods_outcome(
    cells: Map<Id, Cell>,
    ea: EdgeAttributes,
    owner: Id,
    slot: u64,
    schema: u32,
    ids: Seq<Id>,
    filter: Option<Expr>,
) -> Result<Seq<(VertexModel, EdgeModel)>, Option<NeighbourhoodError>>
    decreases ids.len(),
{
    if ids.len() == 0 {
        Ok(Seq::empty())
    } else {
        match neighbourhoods_outcome(cells, ea, owner, slot, schema, ids.drop_last(), filter) {
            Err(e) => Err(e),
            Ok(prev) => match edge_from_entry(cells, ea, owner, slot, schema, ids.last()) {
                Err(e) => Err(Some(NeighbourhoodError::EdgeError(e))),
                Ok(m) => match opposite(m, owner) {
                    None => Err(Some(NeighbourhoodError::CannotFindOppositeId(owner))),
                    Some(o) => if !cells.contains_key(o) {
                        Err(Some(NeighbourhoodError::VertexNotFound(o)))
                    } else {
                        let vc = cells[o];
                        match filter_outcome(filter, edge_body(m), Some(vc.data@)) {
                            None => Err(None),
                            Some(true) => Ok(prev.push(((o, vc.schema, vc.data@), m))),
                            Some(false) => Ok(prev),
                        }
                    },
                },
            },
        }
    }
}

pub proof fn lemma_edges_outcome_err(
    cells: Map<Id, Cell>,
    ea: EdgeAttributes,
    owner: Id,
    slot: u64,
    schema: u32,
    ids: Seq<Id>,
    n: int,
    filter: Option<Expr>,
)
    requires
        0 <= n <= ids.len(),
        edges_outcome(cells, ea, owner, slot, schema, ids.take(n), filter) is Err,
    ensures
        edges_outcome(cells, ea, owner, slot, schema, ids, filter) == edges_outcome(
            cells,
            ea,
            owner,
            slot,
            schema,
            ids.take(n),
            filter,
        ),
    decreases ids.len(),
{
    if n == ids.len() {
        assert(ids.take(n) =~= ids);
    } else {
        assert(ids.drop_last().take(n) =~= ids.take(n));
        lemma_edges_outcome_err(cells, ea, owner, slot, schema, ids.drop_last(), n, filter);
    }
}

pub proof fn lemma_neighbourhoods_outcome_err(
    cells: Map<Id, Cell>,
    ea: EdgeAttributes,
    owner: Id,
    slot: u64,
    schema: u32,
    ids: Seq<Id>,
    n: int,
    filter: Option<Expr>,
)
    requires
        0 <= n <= ids.len(),
        neighbourhoods_outcome(cells, ea, owner, slot, schema, ids.take(n), filter) is Err,
    ensures
        neighbourhoods_outcome(cells, ea, owner, slot, schema, ids, filter)
            == neighbourhoods_outcome(cells, ea, owner, slot, schema, ids.take(n), filter),
    decreases ids.len(),
{
    if n == ids.len() {
        assert(ids.take(n) =~= ids);
    } else {
        assert(ids.drop_last().take(n) =~= ids.take(n));
        lemma_neighbourhoods_outcome_err(cells, ea, owner, slot, schema, ids.drop_last(), n, filter);
    }
}

pub open spec fn edge_models(v: Seq<Edge>) -> Seq<EdgeModel> {
    v.map_values(|e: Edge| edge_model(e))
}

pub open spec fn pair_models(v: Seq<(Vertex, Edge)>) -> Seq<(VertexModel, EdgeModel)> {
    v.map_values(|p: (Vertex, Edge)| (vertex_model(p.0), edge_model(p.1)))
}

/// Cell `c` is an edge cell, of an edge schema with a body, that has `v` as
/// an endpoint.
pub open spec fn refers_to(types: Map<u32, SchemaType>, c: Cell, v: Id) -> bool {
    match types.get(c.schema) {
        Some(SchemaType::Edge(ea)) => ea.has_body && (field_of(c.data@, endpoint_keys(ea.edge_type).0)
            == Some(Value::Id(v)) || field_of(c.data@, endpoint_keys(ea.edge_type).1) == Some(
            Value::Id(v),
        )),
        _ => false,
    }
}

/// Entry `e` of a list under `schema` stands for an edge incident to `v`:
/// an edge cell that refers to `v`, or, for a simple edge, `v` itself.
pub open spec fn entry_refers(
    types: Map<u32, SchemaType>,
    cells: Map<Id, Cell>,
    schema: u32,
    e: Id,
    v: Id,
) -> bool {
    match types.get(schema) {
        Some(SchemaType::Edge(ea)) => if ea.has_body {
            cells.contains_key(e) && refers_to(types, cells[e], v)
        } else {
            e == v
        },
        _ => false,
    }
}

/// The entries of `s` that do not stand for an edge incident to `v`.
pub open spec fn keep_entries(
    types: Map<u32, SchemaType>,
    cells: Map<Id, Cell>,
    schema: u32,
    s: Seq<Id>,
    v: Id,
) -> Seq<Id>
    decreases s.len(),
{
    if s.len() == 0 {
        s
    } else if entry_refers(types, cells, schema, s.last(), v) {
        keep_entries(types, cells, schema, s.drop_last(), v)
    } else {
        keep_entries(types, cells, schema, s.drop_last(), v).push(s.last())
    }
}

pub proof fn lemma_keep_entries_idem(
    types: Map<u32, SchemaType>,
    cells: Map<Id, Cell>,
    schema: u32,
    s: Seq<Id>,
    v: Id,
)
    ensures
        keep_entries(types, cells, schema, keep_entries(types, cells, schema, s, v), v)
            == keep_entries(types, cells, schema, s, v),
    decreases s.len(),
{
    if s.len() > 0 {
        lemma_keep_entries_idem(types, cells, schema, s.drop_last(), v);
        let x = keep_entries(types, cells, schema, s.drop_last(), v);
        if !entry_refers(types, cells, schema, s.last(), v) {
            assert(x.push(s.last()).drop_last() =~= x);
        }
    }
}

/// The adjacency lists once `v` is removed: its own lists are gone, and no
/// other list holds an entry for an edge incident to `v`.
pub open spec fn drained_lists(
    types: Map<u32, SchemaType>,
    cells: Map<Id, Cell>,
    lists: Map<ListKey, Seq<Id>>,
    v: Id,
) -> Map<ListKey, Seq<Id>> {
    Map::new(
        |k: ListKey| true,
        |k: ListKey|
            if k.owner == v {
                Seq::empty()
            } else {
                keep_entries(types, cells, k.schema, lists[k], v)
            },
    )
}

/// The cells once `v` is removed: `v`'s cell and every edge cell that
/// refers to `v` are gone.
pub open spec fn drained_cells(types: Map<u32, SchemaType>, cells: Map<Id, Cell>, v: Id) -> Map<Id, Cell> {
    Map::new(
        |x: Id| cells.contains_key(x) && x != v && !refers_to(types, cells[x], v),
        |x: Id| cells[x],
    )
}

/// The outcome of writing a vertex of `schema` with body `data`: the first
/// layout error, a store failure when no id is left, or a new vertex cell
/// under a fresh id whose body has empty adjacency slots.
pub open spec fn new_vertex_post(types: Map<u32, SchemaType>, layouts: Seq<Schema>, s0: CellStore, s1: CellStore, schema: u32, data: Seq<(u64, Value)>, r: Result<Result<Vertex, NewVertexError>, TxnError>) -> bool {
    &&& match vertex_write_error(types, layouts, schema, data) {
        Some(e) => r == Ok::<Result<Vertex, NewVertexError>, TxnError>(Err(e))
            && s1 == s0,
        None => if s0.next_id() == u64::MAX {
            r == Err::<Result<Vertex, NewVertexError>, TxnError>(TxnError::Aborted)
                && s1 == s0
        } else {
            &&& r is Ok && r->Ok_0 is Ok
            &&& ({
                let v = r->Ok_0->Ok_0;
                &&& v.id == (Id { higher: 0, lower: s0.next_id() })
                &&& v.schema == schema
                &&& v.data@ == with_empty_slots(data)
                &&& !s0.cells().contains_key(v.id)
                &&& s1.cells() == s0.cells().insert(v.id, s1.cells()[v.id])
                &&& same_cell(s1.cells()[v.id], Cell { id: v.id, schema, data: v.data })
                &&& s1.lists() == s0.lists()
                &&& s1.next_id() == s0.next_id() + 1
            })
        }
    }
}

/// The outcome of a degree query: the list access error, or the length of
/// the list `(vertex, ed, schema)`.
pub open spec fn degree_post(types: Map<u32, SchemaType>, s: CellStore, vertex: Id, schema: u32, ed: EdgeDirection, r: Result<Result<usize, EdgeError>, TxnError>) -> bool {
    &&& match list_access_error(types, s.cells(), vertex, schema) {
        Some(e) => r == Ok::<Result<usize, EdgeError>, TxnError>(Err(e)),
        None => r == Ok::<Result<usize, EdgeError>, TxnError>(
            Ok(s.lists()[key_of(vertex, ed, schema)].len() as usize),
        )
    }
}

/// The outcome of linking `from` to `to`: the first failure with nothing
/// changed, or the new edge, its cell where the schema has a body, and the
/// lists extended as `link_lists` says.
pub open spec fn link_post(types: Map<u32, SchemaType>, s0: CellStore, s1: CellStore, from: Id, schema: u32, to: Id, body: Option<Body>, r: Result<Result<Edge, LinkVerticesError>, TxnError>) -> bool {
    &&& match link_failure(types, s0, from, schema, to, body is Some) {
        Some(Ok(e)) => r == Ok::<Result<Edge, LinkVerticesError>, TxnError>(Err(e))
            && s1 == s0,
        Some(Err(t)) => r == Err::<Result<Edge, LinkVerticesError>, TxnError>(t)
            && s1 == s0,
        None => r is Ok && r->Ok_0 is Ok && ({
            let ea = types[schema]->Edge_0;
            let e = edge_model(r->Ok_0->Ok_0);
            let eid = Id { higher: 0, lower: s0.next_id() };
            &&& e.edge_type == ea.edge_type
            &&& e.schema == schema
            &&& e.ends == (from, to)
            &&& s1.lists() == link_lists(s0.lists(), ea, from, schema, to, eid)
            &&& if ea.has_body {
                let data = edge_cell_data(ea.edge_type, body->Some_0@, from, to);
                &&& e.cell == Some((eid, data))
                &&& !s0.cells().contains_key(eid)
                &&& s1.cells() == s0.cells().insert(eid, s1.cells()[eid])
                &&& s1.cells()[eid].id == eid
                &&& s1.cells()[eid].schema == schema
                &&& s1.cells()[eid].data@ == data
                &&& s1.next_id() == s0.next_id() + 1
            } else {
                &&& e.cell is None
                &&& s1.cells() == s0.cells()
                &&& s1.next_id() == s0.next_id()
            }
        })
    }
}

/// The outcome of an edge walk: the list access error, the first failure
/// among the entries, or the edges of `edges_outcome`.
pub open spec fn edges_post(types: Map<u32, SchemaType>, s: CellStore, vertex: Id, schema: u32, ed: EdgeDirection, filter: Option<Expr>, r: Result<Result<Vec<Edge>, EdgeError>, TxnError>) -> bool {
    &&& r is Ok
    &&& match list_access_error(types, s.cells(), vertex, schema) {
        Some(e) => r == Ok::<Result<Vec<Edge>, EdgeError>, TxnError>(Err(e)),
        None => match edges_outcome(
            s.cells(),
            types[schema]->Edge_0,
            vertex,
            slot_of(ed),
            schema,
            s.lists()[key_of(vertex, ed, schema)],
            filter,
        ) {
            Ok(ms) => r->Ok_0 is Ok && edge_models(r->Ok_0->Ok_0@) == ms,
            Err(Some(e)) => r == Ok::<Result<Vec<Edge>, EdgeError>, TxnError>(Err(e)),
            Err(None) => r->Ok_0 is Err && r->Ok_0->Err_0 is FilterEvalError,
        }
    }
}

/// The outcome of a neighbourhood walk, as `edges_post` with
/// `neighbourhoods_outcome`.
pub open spec fn neighbourhoods_post(types: Map<u32, SchemaType>, s: CellStore, vertex: Id, schema: u32, ed: EdgeDirection, filter: Option<Expr>, r: Result<Result<Vec<(Vertex, Edge)>, NeighbourhoodError>, TxnError>) -> bool {
    &&& r is Ok
    &&& match list_access_error(types, s.cells(), vertex, schema) {
        Some(e) => r == Ok::<Result<Vec<(Vertex, Edge)>, NeighbourhoodError>, TxnError>(
            Err(NeighbourhoodError::EdgeError(e)),
        ),
        None => match neighbourhoods_outcome(
            s.cells(),
            types[schema]->Edge_0,
            vertex,
            slot_of(ed),
            schema,
            s.lists()[key_of(vertex, ed, schema)],
            filter,
        ) {
            Ok(ms) => r->Ok_0 is Ok && pair_models(r->Ok_0->Ok_0@) == ms,
            Err(Some(e)) => r == Ok::<Result<Vec<(Vertex, Edge)>, NeighbourhoodError>, TxnError>(Err(e)),
            Err(None) => r->Ok_0 is Err && r->Ok_0->Err_0 is FilterEvalError,
        }
    }
}

/// The outcome of removing `vertex`: `VertexNotFound` with nothing changed
/// where no vertex cell has that id, or the cells and lists drained of everything incident to it.
pub open spec fn remove_vertex_post(types: Map<u32, SchemaType>, s0: CellStore, s1: CellStore, vertex: Id, r: Result<Result<(), RemoveError>, TxnError>) -> bool {
    &&& !is_vertex_cell(types, s0, vertex) ==> r == Ok::<Result<(), RemoveError>, TxnError>(
        Err(RemoveError::VertexNotFound),
    ) && s1 == s0
    &&& is_vertex_cell(types, s0, vertex) ==> {
        let cells = s0.cells();
        &&& r == Ok::<Result<(), RemoveError>, TxnError>(Ok(()))
        &&& s1.cells() == drained_cells(types, cells, vertex)
        &&& s1.lists() == drained_lists(types, cells, s0.lists(), vertex)
        &&& s1.next_id() == s0.next_id()
    }
}


/// The vertex stored under `vertex`, if any.
pub fn read_vertex_of(store: &CellStore, schemas: &SchemaContainer, vertex: Id) -> (r: Result<Option<Vertex>, TxnError>)
    requires
        store.wf(),
        schemas.wf(),
    ensures
        r is Ok,
        r->Ok_0 is Some <==> store.cells().contains_key(vertex),
        r->Ok_0 is Some ==> ({
            let v = r->Ok_0->Some_0;
            let c = store.cells()[vertex];
            v.id == vertex && v.schema == c.schema && v.data@ == c.data@
        }),
{
    match store.read(vertex) {
        Some(c) => Ok(Some(cell_to_vertex(c))),
        None => Ok(None),
    }
}


/// The number of entries of the list `(vertex, ed, schema)`.
pub fn degree_of(store: &CellStore, schemas: &SchemaContainer, vertex: Id, schema: u32, ed: EdgeDirection) -> (r: Result<Result<usize, EdgeError>, TxnError>)
    requires
        store.wf(),
        schemas.wf(),
    ensures
        degree_post(schemas.types(), *store, vertex, schema, ed, r),

{
    let (schema_id, _edge_attr) = match edge_attr_from_schema(schema, schemas) {
        Err(e) => return Ok(Err(e)),
        Ok(t) => t,
    };
    if !store.contains(vertex) {
        return Ok(Err(EdgeError::IdListError));
    }
    let k = ListKey { owner: vertex, slot: ed.as_field(), schema: schema_id };
    Ok(Ok(store.list_count(k)))
}


/// The edges listed under `(vertex, ed, schema)` that pass `filter`.
pub fn edges_of(store: &CellStore, schemas: &SchemaContainer, vertex: Id, schema: u32, ed: EdgeDirection, filter: &Option<Expr>) -> (r: Result<Result<Vec<Edge>, EdgeError>, TxnError>)
    requires
        store.wf(),
        schemas.wf(),
    ensures
        edges_post(schemas.types(), *store, vertex, schema, ed, *filter, r),

{
    let (schema_id, ea) = match edge_attr_from_schema(schema, schemas) {
        Err(e) => return Ok(Err(e)),
        Ok(t) => t,
    };
    if !store.contains(vertex) {
        return Ok(Err(EdgeError::IdListError));
    }
    let vertex_field = ed.as_field();
    let ids = store.list_ids(ListKey { owner: vertex, slot: vertex_field, schema: schema_id });
    let ghost cells = store.cells();
    let mut result: Vec<Edge> = Vec::new();
    let mut i: usize = 0;
    assert(ids@.take(0) =~= Seq::<Id>::empty());
    assert(edge_models(result@) =~= Seq::<EdgeModel>::empty());
    while i < ids.len()
        invariant
            i <= ids@.len(),
            store.wf(),
            schemas.wf(),
            cells == store.cells(),
            vertex_field == slot_of(ed),
            ids@ == store.lists()[key_of(vertex, ed, schema)],
            schemas.types().get(schema) == Some(SchemaType::Edge(ea)),
            list_access_error(schemas.types(), store.cells(), vertex, schema) is None,
            edges_outcome(cells, ea, vertex, vertex_field, schema, ids@.take(i as int), *filter)
                == Ok::<Seq<EdgeModel>, Option<EdgeError>>(edge_models(result@)),
        decreases ids@.len() - i,
    {
        assert(ids@.take(i + 1).drop_last() =~= ids@.take(i as int));
        assert(ids@.take(i + 1).last() == ids@[i as int]);
        let e = match from_id(store, ea, vertex, vertex_field, schema, ids[i]) {
            Ok(e) => e,
            Err(er) => {
                proof {
                    lemma_edges_outcome_err(cells, ea, vertex, vertex_field, schema, ids@, i + 1, *filter);
                }
                return Ok(Err(er));
            },
        };
        match eval_with_edge(filter, &e) {
            Ok(true) => {
                let ghost before = result@;
                result.push(e);
                assert(edge_models(result@) =~= edge_models(before).push(edge_model(e)));
            },
            Ok(false) => {},
            Err(err) => {
                proof {
                    lemma_edges_outcome_err(cells, ea, vertex, vertex_field, schema, ids@, i + 1, *filter);
                }
                return Ok(Err(EdgeError::FilterEvalError(err)));
            },
        }
        i = i + 1;
    }
    assert(ids@.take(ids@.len() as int) =~= ids@);
    Ok(Ok(result))
}


/// The edges listed under `(vertex, ed, schema)`, each with the vertex
/// across from it, that pass `filter`.
pub fn neighbourhoods_of(store: &CellStore, schemas: &SchemaContainer, vertex: Id, schema: u32, ed: EdgeDirection, filter: &Option<Expr>) -> (r: Result<Result<Vec<(Vertex, Edge)>, NeighbourhoodError>, TxnError>)
    requires
        store.wf(),
        schemas.wf(),
    ensures
        neighbourhoods_post(schemas.types(), *store, vertex, schema, ed, *filter, r),

{
    let (schema_id, ea) = match edge_attr_from_schema(schema, schemas) {
        Err(e) => return Ok(Err(NeighbourhoodError::EdgeError(e))),
        Ok(t) => t,
    };
    if !store.contains(vertex) {
        return Ok(Err(NeighbourhoodError::EdgeError(EdgeError::IdListError)));
    }
    let vertex_field = ed.as_field();
    let ids = store.list_ids(ListKey { owner: vertex, slot: vertex_field, schema: schema_id });
    let ghost cells = store.cells();
    let mut result: Vec<(Vertex, Edge)> = Vec::new();
    let mut i: usize = 0;
    assert(ids@.take(0) =~= Seq::<Id>::empty());
    assert(pair_models(result@) =~= Seq::<(VertexModel, EdgeModel)>::empty());
    while i < ids.len()
        invariant
            i <= ids@.len(),
            store.wf(),
            schemas.wf(),
            cells == store.cells(),
            vertex_field == slot_of(ed),
            ids@ == store.lists()[key_of(vertex, ed, schema)],
            schemas.types().get(schema) == Some(SchemaType::Edge(ea)),
            list_access_error(schemas.types(), store.cells(), vertex, schema) is None,
            neighbourhoods_outcome(cells, ea, vertex, vertex_field, schema, ids@.take(i as int), *filter)
                == Ok::<Seq<(VertexModel, EdgeModel)>, Option<NeighbourhoodError>>(pair_models(result@)),
        decreases ids@.len() - i,
    {
        assert(ids@.take(i + 1).drop_last() =~= ids@.take(i as int));
        assert(ids@.take(i + 1).last() == ids@[i as int]);
        let edge = match from_id(store, ea, vertex, vertex_field, schema, ids[i]) {
            Ok(e) => e,
            Err(edge_error) => {
                proof {
                    lemma_neighbourhoods_outcome_err(cells, ea, vertex, vertex_field, schema, ids@, i + 1, *filter);
                }
                return Ok(Err(NeighbourhoodError::EdgeError(edge_error)));
            },
        };
        let opposite_id = match edge.one_opposite_id_vertex_id(vertex) {
            Some(o) => o,
            None => {
                proof {
                    lemma_neighbourhoods_outcome_err(cells, ea, vertex, vertex_field, schema, ids@, i + 1, *filter);
                }
                return Ok(Err(NeighbourhoodError::CannotFindOppositeId(vertex)));
            },
        };
        let v = match read_vertex_of(store, schemas, opposite_id) {
            Ok(Some(v)) => v,
            Ok(None) => {
                proof {
                    lemma_neighbourhoods_outcome_err(cells, ea, vertex, vertex_field, schema, ids@, i + 1, *filter);
                }
                return Ok(Err(NeighbourhoodError::VertexNotFound(opposite_id)));
            },
            Err(t) => return Err(t),
        };
        match eval_with_edge_and_vertex(filter, &v, &edge) {
            Ok(true) => {
                let ghost before = result@;
                let ghost pv = vertex_model(v);
                let ghost pe = edge_model(edge);
                result.push((v, edge));
                assert(pair_models(result@) =~= pair_models(before).push((pv, pe)));
            },
            Ok(false) => {},
            Err(err) => {
                proof {
                    lemma_neighbourhoods_outcome_err(cells, ea, vertex, vertex_field, schema, ids@, i + 1, *filter);
                }
                return Ok(Err(NeighbourhoodError::FilterEvalError(err)));
            },
        }
        i = i + 1;
    }
    assert(ids@.take(ids@.len() as int) =~= ids@);
    Ok(Ok(result))
}

/// The cell `vertex` holds a vertex: its schema is a vertex schema.
pub open spec fn is_vertex_cell(types: Map<u32, SchemaType>, s: CellStore, vertex: Id) -> bool {
    s.cells().contains_key(vertex) && types.get(s.cells()[vertex].schema) == Some(SchemaType::Vertex)
}

/// What `update_vertex` guarantees: only a vertex cell is updated, with the
/// body of the vertex that `update` returned for it; its id, schema and
/// every list stay.
pub open spec fn update_vertex_post<U: Fn(Vertex) -> Option<Vertex>>(
    types: Map<u32, SchemaType>,
    s0: CellStore,
    s1: CellStore,
    vertex: Id,
    update: U,
) -> bool {
    &&& s1.lists() == s0.lists()
    &&& s1.next_id() == s0.next_id()
    &&& !is_vertex_cell(types, s0, vertex) ==> s1 == s0
    &&& is_vertex_cell(types, s0, vertex) ==> exists|v: Vertex, res: Option<Vertex>|
        #[trigger] update.ensures((v,), res) && {
            let c = s0.cells()[vertex];
            &&& vertex_model(v) == (vertex, c.schema, c.data@)
            &&& match res {
                None => s1 == s0,
                Some(nv) => s1.cells() == s0.cells().insert(vertex, s1.cells()[vertex])
                    && s1.cells()[vertex].id == vertex && s1.cells()[vertex].schema == c.schema
                    && s1.cells()[vertex].data@ == nv.data@,
            }
        }
}

/// Graph operations on the cells of one transaction.
pub struct GraphTransaction<'a> {
    pub store: CellStore,
    pub schemas: &'a SchemaContainer,
}

impl<'a> GraphTransaction<'a> {
    pub fn new(store: CellStore, schemas: &'a SchemaContainer) -> (r: GraphTransaction<'a>)
        ensures
            r.store == store,
            r.schemas == schemas,
    {
        GraphTransaction { store, schemas }
    }

    /// Writes a new vertex of `schema` with body `data`.
    pub fn new_vertex(&mut self, schema: u32, data: Body) -> (r: Result<Result<Vertex, NewVertexError>, TxnError>)
        requires
            old(self).store.wf(),
            old(self).schemas.wf(),
        ensures
            final(self).store.wf(),
            final(self).schemas == old(self).schemas,
            new_vertex_post(old(self).schemas.types(), old(self).schemas.layouts(), old(self).store, final(self).store, schema, data@, r),

    {
        let vertex = Vertex::new(schema, data);
        let cell = match vertex_to_cell_for_write(self.schemas, vertex) {
            Ok(cell) => cell,
            Err(e) => return Ok(Err(e)),
        };
        if !self.store.can_allocate() {
            return Err(TxnError::Aborted);
        }
        let kept = crate::types::copy_body(&cell.data);
        let id = self.store.write_new(cell.schema, cell.data);
        Ok(Ok(Vertex { id, schema, data: kept }))
    }

    /// The vertex stored under `vertex`, if any.
    pub fn read_vertex(&self, vertex: Id) -> (r: Result<Option<Vertex>, TxnError>)
        requires
            self.store.wf(),
            self.schemas.wf(),
        ensures
            r is Ok,
            r->Ok_0 is Some <==> self.store.cells().contains_key(vertex),
            r->Ok_0 is Some ==> ({
                let v = r->Ok_0->Some_0;
                let c = self.store.cells()[vertex];
                v.id == vertex && v.schema == c.schema && v.data@ == c.data@
            }),
    {
        read_vertex_of(&self.store, self.schemas, vertex)
    }

    /// The number of entries of the list `(vertex, ed, schema)`.
    pub fn degree(&self, vertex: Id, schema: u32, ed: EdgeDirection) -> (r: Result<Result<usize, EdgeError>, TxnError>)
        requires
            self.store.wf(),
            self.schemas.wf(),
        ensures
            degree_post(self.schemas.types(), self.store, vertex, schema, ed, r),

    {
        degree_of(&self.store, self.schemas, vertex, schema, ed)
    }

    /// Links `from` to `to` by an edge of `schema`, with `body` where the
    /// schema has one.
    pub fn link(&mut self, from: Id, schema: u32, to: Id, body: Option<Body>) -> (r: Result<Result<Edge, LinkVerticesError>, TxnError>)
        requires
            old(self).store.wf(),
            old(self).schemas.wf(),
        ensures
            final(self).store.wf(),
            final(self).schemas == old(self).schemas,
            link_post(old(self).schemas.types(), old(self).store, final(self).store, from, schema, to, body, r),

    {
        let edge_attr = match self.schemas.schema_type(schema) {
            Some(SchemaType::Edge(ea)) => ea,
            Some(_) => return Ok(Err(LinkVerticesError::SchemaNotEdge)),
            None => return Ok(Err(LinkVerticesError::EdgeSchemaNotFound)),
        };
        if !edge_attr.has_body && body.is_some() {
            return Ok(Err(LinkVerticesError::BodyShouldNotExisted));
        }
        if edge_attr.has_body && body.is_none() {
            return Ok(Err(LinkVerticesError::BodyRequired));
        }
        if !self.store.contains(from) || !self.store.contains(to) {
            return Ok(Err(LinkVerticesError::EdgeError(EdgeError::IdListError)));
        }
        if edge_attr.has_body && !self.store.can_allocate() {
            return Err(TxnError::Aborted);
        }
        let (at_from, at_to, cell) = match body {
            Some(mut data) => {
                let (k1, k2) = endpoint_fields(edge_attr.edge_type);
                insert_key_id(&mut data, k1, Value::Id(from));
                insert_key_id(&mut data, k2, Value::Id(to));
                let kept = crate::types::copy_body(&data);
                let eid = self.store.write_new(schema, data);
                (eid, eid, Some(Cell { id: eid, schema, data: kept }))
            },
            None => (to, from, None),
        };
        match edge_attr.edge_type {
            EdgeType::Directed => {
                self.store.append(ListKey { owner: from, slot: OUTBOUND_KEY_ID, schema }, at_from);
                self.store.append(ListKey { owner: to, slot: INBOUND_KEY_ID, schema }, at_to);
                Ok(Ok(Edge::Directed { schema, from, to, cell }))
            },
            EdgeType::Undirected => {
                self.store.append(ListKey { owner: from, slot: UNDIRECTED_KEY_ID, schema }, at_from);
                if from != to {
                    self.store.append(ListKey { owner: to, slot: UNDIRECTED_KEY_ID, schema }, at_to);
                }
                Ok(Ok(Edge::Undirected { schema, a: from, b: to, cell }))
            },
        }
    }

    /// The edges listed under `(vertex, ed, schema)` that pass `filter`.
    pub fn edges(&self, vertex: Id, schema: u32, ed: EdgeDirection, filter: &Option<Expr>) -> (r: Result<Result<Vec<Edge>, EdgeError>, TxnError>)
        requires
            self.store.wf(),
            self.schemas.wf(),
        ensures
            edges_post(self.schemas.types(), self.store, vertex, schema, ed, *filter, r),

    {
        edges_of(&self.store, self.schemas, vertex, schema, ed, filter)
    }

    /// The edges listed under `(vertex, ed, schema)`, each with the vertex
    /// across from it, that pass `filter`.
    pub fn neighbourhoods(&self, vertex: Id, schema: u32, ed: EdgeDirection, filter: &Option<Expr>) -> (r: Result<Result<Vec<(Vertex, Edge)>, NeighbourhoodError>, TxnError>)
        requires
            self.store.wf(),
            self.schemas.wf(),
        ensures
            neighbourhoods_post(self.schemas.types(), self.store, vertex, schema, ed, *filter, r),

    {
        neighbourhoods_of(&self.store, self.schemas, vertex, schema, ed, filter)
    }

    fn refers_exec(&self, c: &Cell, v: Id) -> (r: bool)
        requires
            self.schemas.wf(),
        ensures
            r == refers_to(self.schemas.types(), *c, v),
    {
        match self.schemas.schema_type(c.schema) {
            Some(SchemaType::Edge(ea)) => {
                if !ea.has_body {
                    return false;
                }
                let (k1, k2) = endpoint_fields(ea.edge_type);
                let a = match get_field(&c.data, k1) {
                    Some(Value::Id(x)) => x == v,
                    _ => false,
                };
                let b = match get_field(&c.data, k2) {
                    Some(Value::Id(x)) => x == v,
                    _ => false,
                };
                a || b
            },
            _ => false,
        }
    }

    fn entry_refers_exec(&self, schema: u32, e: Id, v: Id) -> (r: bool)
        requires
            self.store.wf(),
            self.schemas.wf(),
        ensures
            r == entry_refers(self.schemas.types(), self.store.cells(), schema, e, v),
    {
        match self.schemas.schema_type(schema) {
            Some(SchemaType::Edge(ea)) => {
                if ea.has_body {
                    match self.store.read(e) {
                        Some(c) => self.refers_exec(&c, v),
                        None => false,
                    }
                } else {
                    e == v
                }
            },
            _ => false,
        }
    }

    /// Replaces the body of vertex `vertex` with that of the vertex `update`
    /// returns for it; `None`, an absent cell or a cell that is no vertex
    /// leaves everything as it is.
    pub fn update_vertex<U: Fn(Vertex) -> Option<Vertex>>(&mut self, vertex: Id, update: U) -> (r: Result<(), TxnError>)
        requires
            old(self).store.wf(),
            old(self).schemas.wf(),
            forall|v: Vertex| #[trigger] update.requires((v,)),
        ensures
            final(self).store.wf(),
            final(self).schemas == old(self).schemas,
            r is Ok,
            update_vertex_post(old(self).schemas.types(), old(self).store, final(self).store, vertex, update),
    {
        let cell = match self.store.read(vertex) {
            Some(c) => c,
            None => return Ok(()),
        };
        match self.schemas.schema_type(cell.schema) {
            Some(SchemaType::Vertex) => {},
            _ => return Ok(()),
        }
        let v = cell_to_vertex(cell);
        let ghost vm = v;
        let res = update(v);
        assert(update.ensures((vm,), res));
        match res {
            Some(nv) => {
                self.store.update_data(vertex, nv.data);
            },
            None => {},
        }
        Ok(())
    }

    /// Removes vertex `vertex` with every edge incident to it, under every
    /// edge schema: edge cells that refer to it are deleted, and no list
    /// keeps an entry for such an edge. A cell whose schema is no vertex
    /// schema is not found.
    pub fn remove_vertex(&mut self, vertex: Id) -> (r: Result<Result<(), RemoveError>, TxnError>)
        requires
            old(self).store.wf(),
            old(self).schemas.wf(),
        ensures
            final(self).store.wf(),
            final(self).schemas == old(self).schemas,
            remove_vertex_post(old(self).schemas.types(), old(self).store, final(self).store, vertex, r),

    {
        match self.store.schema_of(vertex) {
            Some(sc) => match self.schemas.schema_type(sc) {
                Some(SchemaType::Vertex) => {},
                _ => return Ok(Err(RemoveError::VertexNotFound)),
            },
            None => return Ok(Err(RemoveError::VertexNotFound)),
        }
        let ghost types = self.schemas.types();
        let ghost c0 = self.store.cells();
        let ghost l0 = self.store.lists();
        proof {
            self.store.lemma_lists_total();
        }
        let keys = self.store.list_keys();
        let mut i: usize = 0;
        while i < keys.len()
            invariant
                i <= keys@.len(),
                self.store.wf(),
                self.schemas.wf(),
                self.schemas == old(self).schemas,
                types == self.schemas.types(),
                self.store.cells() == c0,
                self.store.next_id() == old(self).store.next_id(),
                l0 == old(self).store.lists(),
                forall|k: ListKey| l0[k].len() > 0 ==> keys@.contains(k),
                forall|k: ListKey| #[trigger] self.store.lists()[k] == l0[k] || self.store.lists()[k]
                    == drained_lists(types, c0, l0, vertex)[k],
                forall|j: int| 0 <= j < i ==> self.store.lists()[#[trigger] keys@[j]] == drained_lists(
                    types,
                    c0,
                    l0,
                    vertex,
                )[keys@[j]],
            decreases keys@.len() - i,
        {
            let k = keys[i];
            let ids = self.store.list_ids(k);
            let mut kept: Vec<Id> = Vec::new();
            if k.owner != vertex {
                let mut j: usize = 0;
                assert(ids@.take(0) =~= Seq::<Id>::empty());
                while j < ids.len()
                    invariant
                        j <= ids@.len(),
                        self.store.wf(),
                        self.schemas.wf(),
                        types == self.schemas.types(),
                        self.store.cells() == c0,
                        kept@ == keep_entries(types, c0, k.schema, ids@.take(j as int), vertex),
                    decreases ids@.len() - j,
                {
                    assert(ids@.take(j + 1).drop_last() =~= ids@.take(j as int));
                    assert(ids@.take(j + 1).last() == ids@[j as int]);
                    if !self.entry_refers_exec(k.schema, ids[j], vertex) {
                        kept.push(ids[j]);
                    }
                    j = j + 1;
                }
                assert(ids@.take(ids@.len() as int) =~= ids@);
                proof {
                    lemma_keep_entries_idem(types, c0, k.schema, l0[k], vertex);
                }
            }
            proof {
                self.store.lemma_lists_total();
            }
            assert(kept@ == drained_lists(types, c0, l0, vertex)[k]) by {
                if k.owner == vertex {
                    assert(kept@ =~= Seq::<Id>::empty());
                }
            }
            self.store.set_list(k, kept);
            proof {
                self.store.lemma_lists_total();
            }
            assert forall|j: int| 0 <= j < i + 1 implies self.store.lists()[#[trigger] keys@[j]]
                == drained_lists(types, c0, l0, vertex)[keys@[j]] by {
                if keys@[j] != k {
                    assert(j < i);
                }
            }
            i = i + 1;
        }
        assert forall|k: ListKey| #[trigger] self.store.lists()[k] == drained_lists(types, c0, l0, vertex)[k] by {
            if keys@.contains(k) {
                let j = choose|j: int| 0 <= j < keys@.len() && #[trigger] keys@[j] == k;
                assert(self.store.lists()[keys@[j]] == drained_lists(types, c0, l0, vertex)[keys@[j]]);
            } else {
                assert(l0[k].len() == 0);
                assert(l0[k] =~= Seq::<Id>::empty());
            }
        }
        proof {
            self.store.lemma_lists_total();
        }
        assert(self.store.lists() =~= drained_lists(types, c0, l0, vertex));
        let ghost l1 = self.store.lists();
        let ids = self.store.cell_ids();
        let mut i: usize = 0;
        while i < ids.len()
            invariant
                i <= ids@.len(),
                self.store.wf(),
                self.schemas.wf(),
                self.schemas == old(self).schemas,
                types == self.schemas.types(),
                self.store.lists() == l1,
                self.store.next_id() == old(self).store.next_id(),
                forall|x: Id| c0.contains_key(x) ==> ids@.contains(x),
                forall|x: Id| #[trigger] self.store.cells().contains_key(x) ==> c0.contains_key(x)
                    && self.store.cells()[x] == c0[x],
                forall|x: Id| #[trigger] c0.contains_key(x) ==> (self.store.cells().contains_key(x)
                    <==> !(ids@.take(i as int).contains(x) && (x == vertex || refers_to(types, c0[x], vertex)))),
            decreases ids@.len() - i,
        {
            let x = ids[i];
            let doomed = if x == vertex {
                true
            } else {
                match self.store.read(x) {
                    Some(c) => self.refers_exec(&c, vertex),
                    None => false,
                }
            };
            if doomed {
                self.store.remove(x);
            }
            assert forall|y: Id| #[trigger] c0.contains_key(y) implies (self.store.cells().contains_key(y)
                <==> !(ids@.take(i + 1).contains(y) && (y == vertex || refers_to(types, c0[y], vertex)))) by {
                if y != x {
                    if ids@.take(i + 1).contains(y) {
                        let j = choose|j: int| 0 <= j < i + 1 && #[trigger] ids@.take(i + 1)[j] == y;
                        assert(ids@.take(i as int)[j] == y);
                    }
                    if ids@.take(i as int).contains(y) {
                        let j = choose|j: int| 0 <= j < i && #[trigger] ids@.take(i as int)[j] == y;
                        assert(ids@.take(i + 1)[j] == y);
                    }
                } else {
                    assert(ids@.take(i + 1)[i as int] == y);
                }
            }
            i = i + 1;
        }
        assert(ids@.take(ids@.len() as int) =~= ids@);
        assert(self.store.cells() =~= drained_cells(types, c0, vertex));
        Ok(Ok(()))
    }
}

/// `f` is the non-nullable field `name` with field id `key_id` and type `type_id`.
pub open spec fn is_node_field(f: Field, name: Seq<char>, key_id: u64, type_id: u32) -> bool {
    f.name@ == name && f.key_id == key_id && f.type_id == type_id && !f.nullable
}

/// The stored layout of plain id-list nodes: `_NEB_ID_LIST { next, value }`.
pub open spec fn is_id_list_layout(l: Schema) -> bool {
    &&& l.id == ID_LIST_SCHEMA_ID && l.name@ == "_NEB_ID_LIST"@ && l.key_field is None && !l.is_dynamic
    &&& l.fields@.len() == 2
    &&& is_node_field(l.fields@[0], "next"@, NEXT_KEY_ID, TYPE_ID)
    &&& is_node_field(l.fields@[1], "value"@, VALUE_KEY_ID, TYPE_ID)
}

/// The stored layout of typed id-list nodes:
/// `_NEB_TYPE_ID_LIST { next, value, type }`.
pub open spec fn is_type_list_layout(l: Schema) -> bool {
    &&& l.id == TYPE_LIST_SCHEMA_ID && l.name@ == "_NEB_TYPE_ID_LIST"@ && l.key_field is None && !l.is_dynamic
    &&& l.fields@.len() == 3
    &&& is_node_field(l.fields@[0], "next"@, NEXT_KEY_ID, TYPE_ID)
    &&& is_node_field(l.fields@[1], "value"@, VALUE_KEY_ID, TYPE_ID)
    &&& is_node_field(l.fields@[2], "type"@, TYPE_KEY_ID, TYPE_U32)
}

/// The layout of a plain id-list node: `{ next, value }`.
pub fn id_linked_list_fields() -> (r: Vec<Field>)
    ensures
        r@.len() == 2,
        is_node_field(r@[0], "next"@, NEXT_KEY_ID, TYPE_ID),
        is_node_field(r@[1], "value"@, VALUE_KEY_ID, TYPE_ID),
{
    let mut r: Vec<Field> = Vec::new();
    r.push(Field::new("next", NEXT_KEY_ID, TYPE_ID, false));
    r.push(Field::new("value", VALUE_KEY_ID, TYPE_ID, false));
    r
}

/// The layout of a typed id-list node: `{ next, value, type }`.
pub fn id_type_list_fields() -> (r: Vec<Field>)
    ensures
        r@.len() == 3,
        is_node_field(r@[0], "next"@, NEXT_KEY_ID, TYPE_ID),
        is_node_field(r@[1], "value"@, VALUE_KEY_ID, TYPE_ID),
        is_node_field(r@[2], "type"@, TYPE_KEY_ID, TYPE_U32),
{
    let mut r: Vec<Field> = Vec::new();
    r.push(Field::new("next", NEXT_KEY_ID, TYPE_ID, false));
    r.push(Field::new("value", VALUE_KEY_ID, TYPE_ID, false));
    r.push(Field::new("type", TYPE_KEY_ID, TYPE_U32, false));
    r
}

/// Stores the layout `fields` under `schema_id` unless a layout is there.
pub fn check_base_schema(schemas: &mut SchemaContainer, schema_id: u32, schema_name: &str, fields: Vec<Field>)
    requires
        old(schemas).wf(),
    ensures
        final(schemas).wf(),
        final(schemas).types() == old(schemas).types(),
        final(schemas).next_schema_id() == old(schemas).next_schema_id(),
        schema_of(old(schemas).layouts(), schema_id) is Some ==> *final(schemas) == *old(schemas),
        schema_of(old(schemas).layouts(), schema_id) is None ==> {
            let l = final(schemas).layouts().last();
            &&& final(schemas).layouts().drop_last() == old(schemas).layouts()
            &&& final(schemas).layouts().len() == old(schemas).layouts().len() + 1
            &&& l.id == schema_id && l.name@ == schema_name@ && l.fields == fields
            &&& l.key_field is None && !l.is_dynamic
        },
        schema_of(final(schemas).layouts(), schema_id) is Some,
        forall|other: u32|
            other != schema_id ==> #[trigger] schema_of(final(schemas).layouts(), other) == schema_of(
                old(schemas).layouts(),
                other,
            ),
        schema_of(old(schemas).layouts(), schema_id) is None ==> schema_of(final(schemas).layouts(), schema_id)
            == Some(final(schemas).layouts().last()),
{
    match schemas.get_neb_schema(schema_id) {
        None => {
            let l = Schema::new_with_id(schema_id, schema_name, None, fields, false);
            schemas.new_schema_with_id(l);
            assert(final(schemas).layouts().drop_last() =~= old(schemas).layouts());
        },
        Some(_) => {},
    }
}

/// The base layout `id` afterwards: the one stored before, or `fresh`.
pub open spec fn base_kept_or(before: Seq<Schema>, after: Seq<Schema>, id: u32, fresh: spec_fn(Schema) -> bool) -> bool {
    &&& schema_of(after, id) is Some
    &&& schema_of(before, id) is Some ==> schema_of(after, id) == schema_of(before, id)
    &&& schema_of(before, id) is None ==> fresh(schema_of(after, id)->Some_0)
}

/// Stores the two id-list node layouts where they are missing; a layout
/// already stored under either id stays as it is.
pub fn check_base_schemas(schemas: &mut SchemaContainer)
    requires
        old(schemas).wf(),
    ensures
        final(schemas).wf(),
        final(schemas).types() == old(schemas).types(),
        final(schemas).next_schema_id() == old(schemas).next_schema_id(),
        base_kept_or(old(schemas).layouts(), final(schemas).layouts(), ID_LIST_SCHEMA_ID, |l: Schema| is_id_list_layout(l)),
        base_kept_or(old(schemas).layouts(), final(schemas).layouts(), TYPE_LIST_SCHEMA_ID, |l: Schema| is_type_list_layout(l)),
{
    check_base_schema(schemas, ID_LIST_SCHEMA_ID, "_NEB_ID_LIST", id_linked_list_fields());
    let ghost mid = schemas.layouts();
    check_base_schema(schemas, TYPE_LIST_SCHEMA_ID, "_NEB_TYPE_ID_LIST", id_type_list_fields());
    assert(schema_of(schemas.layouts(), ID_LIST_SCHEMA_ID) == schema_of(mid, ID_LIST_SCHEMA_ID));
}

/// A graph: its schema registry and its cells. Vertices are addressed by
/// id alone: an id computed from a key value needs the cell store's key
/// hash, which stays with the store and is not offered here. Every operation runs as one
/// transaction: it either takes full effect or leaves the cells as they were.
pub struct Graph {
    pub schemas: SchemaContainer,
    pub store: CellStore,
}

impl Graph {
    pub open spec fn wf(&self) -> bool {
        self.schemas.wf() && self.store.wf()
    }

    /// A graph over `schemas` with no cells; the id-list node layouts are
    /// stored where they are missing.
    pub fn new(schemas: SchemaContainer) -> (r: Graph)
        requires
            schemas.wf(),
        ensures
            r.wf(),
            r.schemas.types() == schemas.types(),
            r.schemas.next_schema_id() == schemas.next_schema_id(),
            base_kept_or(schemas.layouts(), r.schemas.layouts(), ID_LIST_SCHEMA_ID, |l: Schema| is_id_list_layout(l)),
            base_kept_or(schemas.layouts(), r.schemas.layouts(), TYPE_LIST_SCHEMA_ID, |l: Schema| is_type_list_layout(l)),
            r.store.cells() == Map::<Id, Cell>::empty(),
            forall|k: ListKey| #[trigger] r.store.lists()[k] == Seq::<Id>::empty(),
    {
        let mut schemas = schemas;
        check_base_schemas(&mut schemas);
        Graph { schemas, store: CellStore::new() }
    }

    /// Registers a vertex schema.
    pub fn new_vertex_group(&mut self, schema: MorpheusSchema) -> (r: Result<u32, SchemaError>)
        requires
            old(self).wf(),
        ensures
            final(self).wf(),
            final(self).store == old(self).store,
            r is Ok <==> !(crate::schema::has_name(old(self).schemas.layouts(), schema.name@)
                || old(self).schemas.next_schema_id() == u32::MAX),
            r is Err ==> r == Err::<u32, SchemaError>(SchemaError::NewNebSchemaExecError)
                && final(self).schemas == old(self).schemas,
            r is Ok ==> crate::schema::registered_as(
                old(self).schemas,
                final(self).schemas,
                schema,
                SchemaType::Vertex,
                r->Ok_0,
            ),
    {
        let mut schema = schema;
        schema.schema_type = SchemaType::Vertex;
        self.schemas.new_schema(schema)
    }

    /// Registers an edge schema with attributes `edge_attrs`. A simple edge
    /// schema takes no user fields.
    pub fn new_edge_group(&mut self, schema: MorpheusSchema, edge_attrs: EdgeAttributes) -> (r: Result<u32, SchemaError>)
        requires
            old(self).wf(),
        ensures
            final(self).wf(),
            final(self).store == old(self).store,
            !edge_attrs.has_body && schema.fields@.len() > 0 ==> r == Err::<u32, SchemaError>(
                SchemaError::SimpleEdgeShouldNotHaveSchema,
            ),
            (edge_attrs.has_body || schema.fields@.len() == 0) ==> (r is Ok <==> !(
            crate::schema::has_name(old(self).schemas.layouts(), schema.name@)
                || old(self).schemas.next_schema_id() == u32::MAX)),
            r is Err ==> final(self).schemas == old(self).schemas,
            r is Ok ==> crate::schema::registered_as(
                old(self).schemas,
                final(self).schemas,
                schema,
                SchemaType::Edge(edge_attrs),
                r->Ok_0,
            ),
    {
        let mut schema = schema;
        schema.schema_type = SchemaType::Edge(edge_attrs);
        self.schemas.new_schema(schema)
    }

    /// Writes a new vertex; the store's own failure is a `WriteError`.
    pub fn new_vertex<S: ToSchemaId>(&mut self, schema: S, data: Body) -> (r: Result<Vertex, NewVertexError>)
        requires
            old(self).wf(),
        ensures
            final(self).wf(),
            final(self).schemas == old(self).schemas,
            exists|t: Result<Result<Vertex, NewVertexError>, TxnError>| {
                &&& #[trigger] new_vertex_post(
                    old(self).schemas.types(),
                    old(self).schemas.layouts(),
                    old(self).store,
                    final(self).store,
                    schema.schema_id_of(&old(self).schemas),
                    data@,
                    t,
                )
                &&& r == match t {
                    Ok(x) => x,
                    Err(_) => Err(NewVertexError::WriteError),
                }
            },
    {
        let schema = schema.to_id(&self.schemas);
        let mut store = CellStore::new();
        std::mem::swap(&mut store, &mut self.store);
        let mut txn = GraphTransaction::new(store, &self.schemas);
        let ghost d = data@;
        let t = txn.new_vertex(schema, data);
        self.store = txn.store;
        assert(new_vertex_post(
            old(self).schemas.types(),
            old(self).schemas.layouts(),
            old(self).store,
            self.store,
            schema,
            d,
            t,
        ));
        match t {
            Ok(x) => x,
            Err(_) => Err(NewVertexError::WriteError),
        }
    }

    /// Removes a vertex with every edge incident to it; an absent vertex
    /// aborts the transaction.
    pub fn remove_vertex(&mut self, vertex: Id) -> (r: Result<(), TxnError>)
        requires
            old(self).wf(),
        ensures
            final(self).wf(),
            final(self).schemas == old(self).schemas,
            exists|t: Result<Result<(), RemoveError>, TxnError>| {
                &&& #[trigger] remove_vertex_post(old(self).schemas.types(), old(self).store, final(self).store, vertex, t)
                &&& r == match t {
                    Ok(Ok(())) => Ok::<(), TxnError>(()),
                    _ => Err(TxnError::Aborted),
                }
            },
    {
        let mut store = CellStore::new();
        std::mem::swap(&mut store, &mut self.store);
        let mut txn = GraphTransaction::new(store, &self.schemas);
        let t = txn.remove_vertex(vertex);
        self.store = txn.store;
        assert(remove_vertex_post(old(self).schemas.types(), old(self).store, self.store, vertex, t));
        match t {
            Ok(Ok(())) => Ok(()),
            _ => Err(TxnError::Aborted),
        }
    }

    /// Updates a vertex as `GraphTransaction::update_vertex` does.
    pub fn update_vertex<U: Fn(Vertex) -> Option<Vertex>>(&mut self, vertex: Id, update: U) -> (r: Result<(), TxnError>)
        requires
            old(self).wf(),
            forall|v: Vertex| #[trigger] update.requires((v,)),
        ensures
            final(self).wf(),
            final(self).schemas == old(self).schemas,
            r is Ok,
            update_vertex_post(old(self).schemas.types(), old(self).store, final(self).store, vertex, update),
    {
        let mut store = CellStore::new();
        std::mem::swap(&mut store, &mut self.store);
        let mut txn = GraphTransaction::new(store, &self.schemas);
        let r = txn.update_vertex(vertex, update);
        self.store = txn.store;
        r
    }

    /// The vertex stored under `vertex`, if any.
    pub fn vertex_by(&self, vertex: Id) -> (r: Result<Option<Vertex>, ReadVertexError>)
        requires
            self.wf(),
        ensures
            r is Ok,
            r->Ok_0 is Some <==> self.store.cells().contains_key(vertex),
            r->Ok_0 is Some ==> ({
                let v = r->Ok_0->Some_0;
                let c = self.store.cells()[vertex];
                v.id == vertex && v.schema == c.schema && v.data@ == c.data@
            }),
    {
        match read_vertex_of(&self.store, &self.schemas, vertex) {
            Ok(v) => Ok(v),
            Err(_) => Err(ReadVertexError::ReadError),
        }
    }

    /// Links `from` to `to` by an edge of `schema`.
    pub fn link<S: ToSchemaId>(&mut self, from: Id, schema: S, to: Id, body: Option<Body>) -> (r: Result<Result<Edge, LinkVerticesError>, TxnError>)
        requires
            old(self).wf(),
        ensures
            final(self).wf(),
            final(self).schemas == old(self).schemas,
            link_post(old(self).schemas.types(), old(self).store, final(self).store, from, schema.schema_id_of(&old(self).schemas), to, body, r),
    {
        let schema = schema.to_id(&self.schemas);
        let mut store = CellStore::new();
        std::mem::swap(&mut store, &mut self.store);
        let mut txn = GraphTransaction::new(store, &self.schemas);
        let r = txn.link(from, schema, to, body);
        self.store = txn.store;
        r
    }

    /// The number of edges listed under `(vertex, direction, schema)`.
    pub fn degree<S: ToSchemaId>(&self, vertex: Id, schema: S, direction: EdgeDirection) -> (r: Result<Result<usize, EdgeError>, TxnError>)
        requires
            self.wf(),
        ensures
            degree_post(self.schemas.types(), self.store, vertex, schema.schema_id_of(&self.schemas), direction, r),
    {
        let schema = schema.to_id(&self.schemas);
        degree_of(&self.store, &self.schemas, vertex, schema, direction)
    }

    /// The edges listed under `(vertex, direction, schema)` that pass `filter`.
    pub fn edges<S: ToSchemaId>(&self, vertex: Id, schema: S, direction: EdgeDirection, filter: &Option<Expr>) -> (r: Result<Result<Vec<Edge>, EdgeError>, TxnError>)
        requires
            self.wf(),
        ensures
            edges_post(self.schemas.types(), self.store, vertex, schema.schema_id_of(&self.schemas), direction, *filter, r),
    {
        let schema = schema.to_id(&self.schemas);
        edges_of(&self.store, &self.schemas, vertex, schema, direction, filter)
    }

    /// The edges listed under `(vertex, direction, schema)` with the vertex
    /// across from each, that pass `filter`.
    pub fn neighbourhoods<S: ToSchemaId>(&self, vertex: Id, schema: S, direction: EdgeDirection, filter: &Option<Expr>) -> (r: Result<Result<Vec<(Vertex, Edge)>, NeighbourhoodError>, TxnError>)
        requires
            self.wf(),
        ensures
            neighbourhoods_post(self.schemas.types(), self.store, vertex, schema.schema_id_of(&self.schemas), direction, *filter, r),
    {
        let schema = schema.to_id(&self.schemas);
        neighbourhoods_of(&self.store, &self.schemas, vertex, schema, direction, filter)
    }
}

} // verus!
