use vstd::prelude::*;

verus! {

/// Field id of a vertex's inbound adjacency slot.
pub const INBOUND_KEY_ID: u64 = 1;
/// Field id of a vertex's outbound adjacency slot.
pub const OUTBOUND_KEY_ID: u64 = 2;
/// Field id of a vertex's undirected adjacency slot.
pub const UNDIRECTED_KEY_ID: u64 = 3;
/// Field id of a directed edge's source endpoint.
pub const VERTEX_FROM_KEY_ID: u64 = 4;
/// Field id of a directed edge's target endpoint.
pub const VERTEX_TO_KEY_ID: u64 = 5;
/// Field id of an undirected edge's first endpoint.
pub const VERTEX_A_KEY_ID: u64 = 6;
/// Field id of an undirected edge's second endpoint.
pub const VERTEX_B_KEY_ID: u64 = 7;
/// Field id of an id-list node's successor.
pub const NEXT_KEY_ID: u64 = 8;
/// Field id of an id-list node's entry.
pub const VALUE_KEY_ID: u64 = 9;
/// Field id of a typed id-list node's schema.
pub const TYPE_KEY_ID: u64 = 10;
/// Field ids below this bound are reserved for the layouts above.
pub const FIRST_USER_KEY_ID: u64 = 16;

/// Schema id of the plain id-list node layout.
pub const ID_LIST_SCHEMA_ID: u32 = 1;
/// Schema id of the typed id-list node layout.
pub const TYPE_LIST_SCHEMA_ID: u32 = 2;
/// Schema ids handed to user schemas start here.
pub const FIRST_USER_SCHEMA_ID: u32 = 16;

} // verus!
