use vstd::prelude::*;
use crate::types::{Id, Value, field_of, unit_id_spec};
use crate::fields::{INBOUND_KEY_ID, OUTBOUND_KEY_ID, UNDIRECTED_KEY_ID};
use crate::schema::{EdgeAttributes, EdgeType, SchemaType};
use crate::store::{Cell, CellStore, ListKey};
use crate::graph::{
    EdgeDirection, EdgeError, EdgeModel, Expr, Edge, NewVertexError, RemoveError, TxnError, Vertex,
    degree_post, edges_post, edges_outcome, edge_models, entry_refers, keep_entries,
    new_vertex_post, refers_to, remove_vertex_post, with_empty_slots,
};

verus! {

proof fn lemma_unfiltered_count(
    cells: Map<Id, Cell>,
    ea: EdgeAttributes,
    owner: Id,
    slot: u64,
    schema: u32,
    ids: Seq<Id>,
)
    ensures
        edges_outcome(cells, ea, owner, slot, schema, ids, None) is Ok ==> edges_outcome(
            cells,
            ea,
            owner,
            slot,
            schema,
            ids,
            None,
        )->Ok_0.len() == ids.len(),
        (forall|i: int|
            0 <= i < ids.len() ==> (#[trigger] crate::graph::edge_from_entry(cells, ea, owner, slot, schema, ids[i]))
                is Ok) ==> edges_outcome(cells, ea, owner, slot, schema, ids, None) is Ok,
    decreases ids.len(),
{
    if ids.len() > 0 {
        lemma_unfiltered_count(cells, ea, owner, slot, schema, ids.drop_last());
        if forall|i: int|
            0 <= i < ids.len() ==> (#[trigger] crate::graph::edge_from_entry(cells, ea, owner, slot, schema, ids[i]))
                is Ok {
            assert forall|i: int| 0 <= i < ids.len() - 1 implies (#[trigger] crate::graph::edge_from_entry(
                cells,
                ea,
                owner,
                slot,
                schema,
                ids.drop_last()[i],
            )) is Ok by {
                assert(ids.drop_last()[i] == ids[i]);
            }
            assert(crate::graph::edge_from_entry(cells, ea, owner, slot, schema, ids[ids.len() - 1]) is Ok);
        }
    }
}

/// Every entry of the list `(vertex, direction, schema)` stands for a
/// well-formed edge: a simple edge, or an edge cell of that schema that
/// records both endpoints.
pub open spec fn entries_well_formed(
    types: Map<u32, SchemaType>,
    s: CellStore,
    vertex: Id,
    schema: u32,
    direction: EdgeDirection,
) -> bool {
    let ids = s.lists()[crate::graph::key_of(vertex, direction, schema)];
    forall|i: int|
        0 <= i < ids.len() ==> (#[trigger] crate::graph::edge_from_entry(
            s.cells(),
            types[schema]->Edge_0,
            vertex,
            crate::graph::slot_of(direction),
            schema,
            ids[i],
        )) is Ok
}

/// The degree of a vertex equals the number of edges that an unfiltered
/// walk of the same list returns, whenever that walk succeeds; it succeeds
/// where the degree does and every entry stands for a well-formed edge.
/// Where the degree fails, so does the walk.
pub proof fn lemma_degree_is_edge_count(
    types: Map<u32, SchemaType>,
    s: CellStore,
    vertex: Id,
    schema: u32,
    direction: EdgeDirection,
    degree: Result<Result<usize, EdgeError>, TxnError>,
    edges: Result<Result<Vec<Edge>, EdgeError>, TxnError>,
)
    requires
        degree_post(types, s, vertex, schema, direction, degree),
        edges_post(types, s, vertex, schema, direction, None, edges),
    ensures
        edges->Ok_0 is Ok ==> degree == Ok::<Result<usize, EdgeError>, TxnError>(
            Ok(edges->Ok_0->Ok_0@.len() as usize),
        ),
        degree->Ok_0 is Err ==> edges->Ok_0 is Err,
        degree->Ok_0 is Ok && entries_well_formed(types, s, vertex, schema, direction) ==> edges->Ok_0 is Ok,
{
    let key = crate::graph::key_of(vertex, direction, schema);
    if crate::graph::list_access_error(types, s.cells(), vertex, schema) is None {
        lemma_unfiltered_count(
            s.cells(),
            types[schema]->Edge_0,
            vertex,
            crate::graph::slot_of(direction),
            schema,
            s.lists()[key],
        );
    }
}

/// The edges of `ms` that filter `x` keeps, in their order.
pub open spec fn passing(ms: Seq<EdgeModel>, x: Expr) -> Seq<EdgeModel>
    decreases ms.len(),
{
    if ms.len() == 0 {
        ms
    } else if crate::graph::filter_outcome(Some(x), crate::graph::edge_body(ms.last()), None) == Some(true) {
        passing(ms.drop_last(), x).push(ms.last())
    } else {
        passing(ms.drop_last(), x)
    }
}

proof fn lemma_filter_outcomes(
    cells: Map<Id, Cell>,
    ea: EdgeAttributes,
    owner: Id,
    slot: u64,
    schema: u32,
    ids: Seq<Id>,
    x: Expr,
)
    ensures
        edges_outcome(cells, ea, owner, slot, schema, ids, None) == edges_outcome(
            cells,
            ea,
            owner,
            slot,
            schema,
            ids,
            Some(Expr::Const(true)),
        ),
        edges_outcome(cells, ea, owner, slot, schema, ids, None) != Err::<Seq<EdgeModel>, Option<EdgeError>>(None),
        edges_outcome(cells, ea, owner, slot, schema, ids, Some(x)) is Ok ==> {
            let all = edges_outcome(cells, ea, owner, slot, schema, ids, None);
            let some = edges_outcome(cells, ea, owner, slot, schema, ids, Some(x))->Ok_0;
            &&& all is Ok
            &&& forall|m: EdgeModel| some.contains(m) ==> all->Ok_0.contains(m)
            &&& some == passing(all->Ok_0, x)
        },
    decreases ids.len(),
{
    if ids.len() > 0 {
        lemma_filter_outcomes(cells, ea, owner, slot, schema, ids.drop_last(), x);
        let all = edges_outcome(cells, ea, owner, slot, schema, ids, None);
        let some = edges_outcome(cells, ea, owner, slot, schema, ids, Some(x));
        let all0 = edges_outcome(cells, ea, owner, slot, schema, ids.drop_last(), None);
        let some0 = edges_outcome(cells, ea, owner, slot, schema, ids.drop_last(), Some(x));
        if some is Ok {
            assert(some0 is Ok);
            assert(all0 is Ok);
            let e = crate::graph::edge_from_entry(cells, ea, owner, slot, schema, ids.last());
            assert(e is Ok);
            assert(all->Ok_0 == all0->Ok_0.push(e->Ok_0));
            assert(all->Ok_0.drop_last() =~= all0->Ok_0);
            assert forall|m: EdgeModel| some->Ok_0.contains(m) implies all->Ok_0.contains(m) by {
                let i = choose|i: int| 0 <= i < some->Ok_0.len() && #[trigger] some->Ok_0[i] == m;
                if i < some0->Ok_0.len() {
                    assert(some0->Ok_0[i] == m);
                    assert(some0->Ok_0.contains(m));
                    let j = choose|j: int| 0 <= j < all0->Ok_0.len() && #[trigger] all0->Ok_0[j] == m;
                    assert(all->Ok_0[j] == m);
                } else {
                    assert(m == e->Ok_0);
                    assert(all->Ok_0[all->Ok_0.len() - 1] == m);
                }
            }
        }
    }
}

/// A filter that is constantly true returns what no filter returns, and
/// any filter returns exactly the edges of the unfiltered walk that it
/// keeps, in the same order.
pub proof fn lemma_filter_neutrality(
    types: Map<u32, SchemaType>,
    s: CellStore,
    vertex: Id,
    schema: u32,
    direction: EdgeDirection,
    x: Expr,
    unfiltered: Result<Result<Vec<Edge>, EdgeError>, TxnError>,
    always: Result<Result<Vec<Edge>, EdgeError>, TxnError>,
    filtered: Result<Result<Vec<Edge>, EdgeError>, TxnError>,
)
    requires
        edges_post(types, s, vertex, schema, direction, None, unfiltered),
        edges_post(types, s, vertex, schema, direction, Some(Expr::Const(true)), always),
        edges_post(types, s, vertex, schema, direction, Some(x), filtered),
    ensures
        unfiltered->Ok_0 is Ok <==> always->Ok_0 is Ok,
        unfiltered->Ok_0 is Ok ==> edge_models(unfiltered->Ok_0->Ok_0@) == edge_models(always->Ok_0->Ok_0@),
        unfiltered->Ok_0 is Err ==> unfiltered == always,
        filtered->Ok_0 is Ok ==> unfiltered->Ok_0 is Ok && forall|m: EdgeModel|
            edge_models(filtered->Ok_0->Ok_0@).contains(m) ==> edge_models(
                unfiltered->Ok_0->Ok_0@,
            ).contains(m),
        filtered->Ok_0 is Ok ==> edge_models(filtered->Ok_0->Ok_0@) == passing(
            edge_models(unfiltered->Ok_0->Ok_0@),
            x,
        ),
{
    if crate::graph::list_access_error(types, s.cells(), vertex, schema) is None {
        lemma_filter_outcomes(
            s.cells(),
            types[schema]->Edge_0,
            vertex,
            crate::graph::slot_of(direction),
            schema,
            s.lists()[crate::graph::key_of(vertex, direction, schema)],
            x,
        );
    }
}

/// Writing a vertex keeps the value of every user field of its body, and
/// adds the three adjacency slots, each holding the unit id.
pub proof fn lemma_vertex_round_trip(
    types: Map<u32, SchemaType>,
    layouts: Seq<crate::schema::Schema>,
    s0: CellStore,
    s1: CellStore,
    schema: u32,
    m: Seq<(u64, Value)>,
    r: Result<Result<Vertex, NewVertexError>, TxnError>,
)
    requires
        new_vertex_post(types, layouts, s0, s1, schema, m, r),
        r is Ok && r->Ok_0 is Ok,
    ensures
        ({
            let v = r->Ok_0->Ok_0;
            let c = s1.cells()[v.id];
            &&& s1.cells().contains_key(v.id)
            &&& c.schema == schema
            &&& forall|k: u64|
                k != INBOUND_KEY_ID && k != OUTBOUND_KEY_ID && k != UNDIRECTED_KEY_ID ==> #[trigger] field_of(
                    c.data@,
                    k,
                ) == field_of(m, k)
            &&& field_of(c.data@, INBOUND_KEY_ID) == Some(Value::Id(unit_id_spec()))
            &&& field_of(c.data@, OUTBOUND_KEY_ID) == Some(Value::Id(unit_id_spec()))
            &&& field_of(c.data@, UNDIRECTED_KEY_ID) == Some(Value::Id(unit_id_spec()))
        }),
{
    let d = with_empty_slots(m);
    let v = r->Ok_0->Ok_0;
    assert(s1.cells()[v.id].data@ == d);
    assert(d.drop_last().drop_last().drop_last() =~= m);
    assert(d.drop_last().drop_last().last() == (INBOUND_KEY_ID, Value::Id(unit_id_spec())));
    assert(d.drop_last().last() == (OUTBOUND_KEY_ID, Value::Id(unit_id_spec())));
    assert(d.last() == (UNDIRECTED_KEY_ID, Value::Id(unit_id_spec())));
    assert(field_of(d, INBOUND_KEY_ID) == field_of(d.drop_last(), INBOUND_KEY_ID));
    assert(field_of(d.drop_last(), INBOUND_KEY_ID) == field_of(d.drop_last().drop_last(), INBOUND_KEY_ID));
    assert(field_of(d, OUTBOUND_KEY_ID) == field_of(d.drop_last(), OUTBOUND_KEY_ID));
    assert forall|k: u64|
        k != INBOUND_KEY_ID && k != OUTBOUND_KEY_ID && k != UNDIRECTED_KEY_ID implies #[trigger] field_of(d, k)
            == field_of(m, k) by {
        assert(field_of(d, k) == field_of(d.drop_last(), k));
        assert(field_of(d.drop_last(), k) == field_of(d.drop_last().drop_last(), k));
        assert(field_of(d.drop_last().drop_last(), k) == field_of(d.drop_last().drop_last().drop_last(), k));
    }
}

proof fn lemma_kept_entries_clean(
    types: Map<u32, SchemaType>,
    cells: Map<Id, Cell>,
    schema: u32,
    s: Seq<Id>,
    v: Id,
)
    ensures
        forall|i: int|
            0 <= i < keep_entries(types, cells, schema, s, v).len() ==> !entry_refers(
                types,
                cells,
                schema,
                #[trigger] keep_entries(types, cells, schema, s, v)[i],
                v,
            ),
    decreases s.len(),
{
    if s.len() > 0 {
        lemma_kept_entries_clean(types, cells, schema, s.drop_last(), v);
        let k0 = keep_entries(types, cells, schema, s.drop_last(), v);
        let k1 = keep_entries(types, cells, schema, s, v);
        assert forall|i: int| 0 <= i < k1.len() implies !entry_refers(types, cells, schema, #[trigger] k1[i], v) by {
            if i < k0.len() {
                assert(k1[i] == k0[i]);
            }
        }
    }
}

/// Once a vertex is removed, its cell is gone, no remaining cell is an edge
/// that refers to it, its own lists are empty, and no list keeps an entry
/// for an edge that was incident to it.
pub proof fn lemma_remove_cascade(
    types: Map<u32, SchemaType>,
    s0: CellStore,
    s1: CellStore,
    vertex: Id,
    r: Result<Result<(), RemoveError>, TxnError>,
)
    requires
        remove_vertex_post(types, s0, s1, vertex, r),
        r == Ok::<Result<(), RemoveError>, TxnError>(Ok(())),
    ensures
        !s1.cells().contains_key(vertex),
        forall|x: Id| #[trigger] s1.cells().contains_key(x) ==> !refers_to(types, s1.cells()[x], vertex),
        forall|k: ListKey| k.owner == vertex ==> (#[trigger] s1.lists()[k]).len() == 0,
        forall|k: ListKey, i: int|
            0 <= i < s1.lists()[k].len() ==> !entry_refers(
                types,
                s0.cells(),
                k.schema,
                #[trigger] s1.lists()[k][i],
                vertex,
            ),
{
    assert forall|k: ListKey, i: int| 0 <= i < s1.lists()[k].len() implies !entry_refers(
        types,
        s0.cells(),
        k.schema,
        #[trigger] s1.lists()[k][i],
        vertex,
    ) by {
        lemma_kept_entries_clean(types, s0.cells(), k.schema, s0.lists()[k], vertex);
    }
}

/// How often `x` occurs in `s`.
pub open spec fn count_of(s: Seq<Id>, x: Id) -> nat
    decreases s.len(),
{
    if s.len() == 0 {
        0
    } else {
        count_of(s.drop_last(), x) + if s.last() == x {
            1nat
        } else {
            0nat
        }
    }
}

proof fn lemma_count_push(s: Seq<Id>, x: Id, y: Id)
    ensures
        count_of(s.push(x), y) == count_of(s, y) + if x == y {
            1nat
        } else {
            0nat
        },
{
    assert(s.push(x).drop_last() =~= s);
}

proof fn lemma_count_absent(s: Seq<Id>, x: Id)
    requires
        !s.contains(x),
    ensures
        count_of(s, x) == 0,
    decreases s.len(),
{
    if s.len() > 0 {
        assert(!s.drop_last().contains(x)) by {
            if s.drop_last().contains(x) {
                let i = choose|i: int| 0 <= i < s.len() - 1 && #[trigger] s.drop_last()[i] == x;
                assert(s[i] == x);
            }
        }
        assert(s.last() != x) by {
            if s.last() == x {
                assert(s[s.len() - 1] == x);
            }
        }
        lemma_count_absent(s.drop_last(), x);
    }
}

proof fn lemma_count_kept(
    types: Map<u32, SchemaType>,
    cells: Map<Id, Cell>,
    schema: u32,
    s: Seq<Id>,
    v: Id,
    x: Id,
)
    ensures
        entry_refers(types, cells, schema, x, v) ==> count_of(keep_entries(types, cells, schema, s, v), x) == 0,
        !entry_refers(types, cells, schema, x, v) ==> count_of(keep_entries(types, cells, schema, s, v), x)
            == count_of(s, x),
        forall|y: Id| keep_entries(types, cells, schema, s, v).contains(y) ==> s.contains(y),
    decreases s.len(),
{
    if s.len() > 0 {
        lemma_count_kept(types, cells, schema, s.drop_last(), v, x);
        let k0 = keep_entries(types, cells, schema, s.drop_last(), v);
        if !entry_refers(types, cells, schema, s.last(), v) {
            lemma_count_push(k0, s.last(), x);
        }
        assert forall|y: Id| keep_entries(types, cells, schema, s, v).contains(y) implies s.contains(y) by {
            let k1 = keep_entries(types, cells, schema, s, v);
            let i = choose|i: int| 0 <= i < k1.len() && #[trigger] k1[i] == y;
            if i < k0.len() {
                assert(k0[i] == y);
                assert(k0.contains(y));
                assert(s.drop_last().contains(y));
                let j = choose|j: int| 0 <= j < s.len() - 1 && #[trigger] s.drop_last()[j] == y;
                assert(s[j] == y);
            } else {
                assert(s[s.len() - 1] == y);
            }
        }
    }
}

/// The schema attributes and endpoints an edge cell records, where it is an
/// edge cell of a schema with a body.
pub open spec fn edge_ends(types: Map<u32, SchemaType>, c: Cell) -> Option<(EdgeAttributes, Id, Id)> {
    match types.get(c.schema) {
        Some(SchemaType::Edge(ea)) => if ea.has_body {
            match (
                field_of(c.data@, crate::graph::endpoint_keys(ea.edge_type).0),
                field_of(c.data@, crate::graph::endpoint_keys(ea.edge_type).1),
            ) {
                (Some(Value::Id(x)), Some(Value::Id(y))) => Some((ea, x, y)),
                _ => None,
            }
        } else {
            None
        },
        _ => None,
    }
}

pub open spec fn lk(v: Id, slot: u64, schema: u32) -> ListKey {
    ListKey { owner: v, slot, schema }
}

/// Every edge cell is listed exactly once by each of its endpoints, under
/// its own schema: in the source's outbound and the target's inbound list
/// if it is directed, in both undirected lists otherwise (once in all for a
/// self-loop). Every simple edge is listed as often at one end as at the
/// other.
pub open spec fn adjacency_symmetric(
    types: Map<u32, SchemaType>,
    cells: Map<Id, Cell>,
    lists: Map<ListKey, Seq<Id>>,
) -> bool {
    &&& forall|e: Id|
        #![trigger edge_ends(types, cells[e])]
        cells.contains_key(e) && edge_ends(types, cells[e]) is Some ==> {
            let (ea, x, y) = edge_ends(types, cells[e])->Some_0;
            let sc = cells[e].schema;
            if ea.edge_type == EdgeType::Directed {
                count_of(lists[lk(x, OUTBOUND_KEY_ID, sc)], e) == 1 && count_of(lists[lk(y, INBOUND_KEY_ID, sc)], e) == 1
            } else {
                count_of(lists[lk(x, UNDIRECTED_KEY_ID, sc)], e) == 1 && count_of(lists[lk(y, UNDIRECTED_KEY_ID, sc)], e) == 1
            }
        }
    &&& forall|sc: u32, x: Id, y: Id|
        #![trigger count_of(lists[lk(x, OUTBOUND_KEY_ID, sc)], y)]
        #![trigger count_of(lists[lk(y, INBOUND_KEY_ID, sc)], x)]
        types.get(sc) == Some(SchemaType::Edge(EdgeAttributes { edge_type: EdgeType::Directed, has_body: false }))
            ==> count_of(lists[lk(x, OUTBOUND_KEY_ID, sc)], y) == count_of(lists[lk(y, INBOUND_KEY_ID, sc)], x)
    &&& forall|sc: u32, x: Id, y: Id|
        #![trigger count_of(lists[lk(x, UNDIRECTED_KEY_ID, sc)], y)]
        types.get(sc) == Some(SchemaType::Edge(EdgeAttributes { edge_type: EdgeType::Undirected, has_body: false }))
            ==> count_of(lists[lk(x, UNDIRECTED_KEY_ID, sc)], y) == count_of(lists[lk(y, UNDIRECTED_KEY_ID, sc)], x)
}

/// No cell belongs to a simple (bodyless) edge schema.
pub open spec fn no_simple_cells(types: Map<u32, SchemaType>, cells: Map<Id, Cell>) -> bool {
    forall|x: Id| #[trigger] cells.contains_key(x) ==> match types.get(cells[x].schema) {
        Some(SchemaType::Edge(ea)) => ea.has_body,
        _ => true,
    }
}

/// Every list entry is an id the store has handed out.
pub open spec fn entries_allocated(s: CellStore) -> bool {
    forall|k: ListKey, x: Id| #[trigger] s.lists()[k].contains(x) ==> x.higher == 0 && x.lower < s.next_id()
}

/// The invariant the graph operations keep.
pub open spec fn graph_invariant(types: Map<u32, SchemaType>, s: CellStore) -> bool {
    &&& adjacency_symmetric(types, s.cells(), s.lists())
    &&& no_simple_cells(types, s.cells())
    &&& entries_allocated(s)
}

/// An empty store meets the invariant.
pub proof fn lemma_empty_invariant(types: Map<u32, SchemaType>, s: CellStore)
    requires
        s.cells() == Map::<Id, Cell>::empty(),
        forall|k: ListKey| #[trigger] s.lists()[k] == Seq::<Id>::empty(),
    ensures
        graph_invariant(types, s),
{
    assert forall|k: ListKey, x: Id| #[trigger] s.lists()[k].contains(x) implies x.higher == 0 && x.lower < s.next_id() by {
        assert(s.lists()[k] == Seq::<Id>::empty());
    }
}

/// Writing a vertex keeps the invariant.
pub proof fn lemma_new_vertex_keeps_invariant(
    types: Map<u32, SchemaType>,
    layouts: Seq<crate::schema::Schema>,
    s0: CellStore,
    s1: CellStore,
    schema: u32,
    data: Seq<(u64, Value)>,
    r: Result<Result<Vertex, NewVertexError>, TxnError>,
)
    requires
        graph_invariant(types, s0),
        new_vertex_post(types, layouts, s0, s1, schema, data, r),
    ensures
        graph_invariant(types, s1),
{
    if r is Ok && r->Ok_0 is Ok {
        let v = r->Ok_0->Ok_0;
        assert(types.get(schema) == Some(SchemaType::Vertex));
        assert forall|e: Id|
            #![trigger edge_ends(types, s1.cells()[e])]
            s1.cells().contains_key(e) && edge_ends(types, s1.cells()[e]) is Some implies s0.cells().contains_key(e)
                && s1.cells()[e] == s0.cells()[e] by {
            if e == v.id {
                assert(s1.cells()[e].schema == schema);
            }
        }
        assert forall|x: Id| #[trigger] s1.cells().contains_key(x) implies match types.get(s1.cells()[x].schema) {
            Some(SchemaType::Edge(ea)) => ea.has_body,
            _ => true,
        } by {
            if x != v.id {
                assert(s0.cells().contains_key(x));
            }
        }
        assert forall|k: ListKey, x: Id| #[trigger] s1.lists()[k].contains(x) implies x.higher == 0 && x.lower
            < s1.next_id() by {
            assert(s0.lists()[k].contains(x));
        }
    }
}

/// Removing a vertex keeps the invariant.
pub proof fn lemma_remove_vertex_keeps_invariant(
    types: Map<u32, SchemaType>,
    s0: CellStore,
    s1: CellStore,
    vertex: Id,
    r: Result<Result<(), RemoveError>, TxnError>,
)
    requires
        graph_invariant(types, s0),
        remove_vertex_post(types, s0, s1, vertex, r),
    ensures
        graph_invariant(types, s1),
{
    if crate::graph::is_vertex_cell(types, s0, vertex) {
        let c0 = s0.cells();
        let l0 = s0.lists();
        let l1 = s1.lists();
        assert forall|e: Id|
            #![trigger edge_ends(types, s1.cells()[e])]
            s1.cells().contains_key(e) && edge_ends(types, s1.cells()[e]) is Some implies {
                let (ea, x, y) = edge_ends(types, s1.cells()[e])->Some_0;
                let sc = s1.cells()[e].schema;
                if ea.edge_type == EdgeType::Directed {
                    count_of(l1[lk(x, OUTBOUND_KEY_ID, sc)], e) == 1 && count_of(l1[lk(y, INBOUND_KEY_ID, sc)], e) == 1
                } else {
                    count_of(l1[lk(x, UNDIRECTED_KEY_ID, sc)], e) == 1 && count_of(l1[lk(y, UNDIRECTED_KEY_ID, sc)], e)
                        == 1
                }
            } by {
            let c = c0[e];
            assert(s1.cells()[e] == c);
            let (ea, x, y) = edge_ends(types, c)->Some_0;
            let sc = c.schema;
            assert(!refers_to(types, c, vertex));
            assert(x != vertex && y != vertex);
            assert(!entry_refers(types, c0, sc, e, vertex));
            assert(edge_ends(types, c0[e]) is Some);
            let (k1, k2) = if ea.edge_type == EdgeType::Directed {
                (lk(x, OUTBOUND_KEY_ID, sc), lk(y, INBOUND_KEY_ID, sc))
            } else {
                (lk(x, UNDIRECTED_KEY_ID, sc), lk(y, UNDIRECTED_KEY_ID, sc))
            };
            lemma_count_kept(types, c0, sc, l0[k1], vertex, e);
            lemma_count_kept(types, c0, sc, l0[k2], vertex, e);
        }
        assert forall|sc: u32, x: Id, y: Id|
            #![trigger count_of(l1[lk(x, OUTBOUND_KEY_ID, sc)], y)]
            #![trigger count_of(l1[lk(y, INBOUND_KEY_ID, sc)], x)]
            types.get(sc) == Some(SchemaType::Edge(EdgeAttributes { edge_type: EdgeType::Directed, has_body: false }))
                implies count_of(l1[lk(x, OUTBOUND_KEY_ID, sc)], y) == count_of(l1[lk(y, INBOUND_KEY_ID, sc)], x) by {
            let ka = lk(x, OUTBOUND_KEY_ID, sc);
            let kb = lk(y, INBOUND_KEY_ID, sc);
            assert(count_of(l0[ka], y) == count_of(l0[kb], x));
            lemma_count_kept(types, c0, sc, l0[ka], vertex, y);
            lemma_count_kept(types, c0, sc, l0[kb], vertex, x);
            if x == vertex {
                assert(l1[ka] =~= Seq::<Id>::empty());
            }
            if y == vertex {
                assert(l1[kb] =~= Seq::<Id>::empty());
            }
        }
        assert forall|sc: u32, x: Id, y: Id|
            #![trigger count_of(l1[lk(x, UNDIRECTED_KEY_ID, sc)], y)]
            types.get(sc) == Some(SchemaType::Edge(EdgeAttributes { edge_type: EdgeType::Undirected, has_body: false }))
                implies count_of(l1[lk(x, UNDIRECTED_KEY_ID, sc)], y) == count_of(l1[lk(y, UNDIRECTED_KEY_ID, sc)], x) by {
            let ka = lk(x, UNDIRECTED_KEY_ID, sc);
            let kb = lk(y, UNDIRECTED_KEY_ID, sc);
            assert(count_of(l0[ka], y) == count_of(l0[kb], x));
            lemma_count_kept(types, c0, sc, l0[ka], vertex, y);
            lemma_count_kept(types, c0, sc, l0[kb], vertex, x);
            if x == vertex {
                assert(l1[ka] =~= Seq::<Id>::empty());
            }
            if y == vertex {
                assert(l1[kb] =~= Seq::<Id>::empty());
            }
        }
        assert forall|x: Id| #[trigger] s1.cells().contains_key(x) implies match types.get(s1.cells()[x].schema) {
            Some(SchemaType::Edge(ea)) => ea.has_body,
            _ => true,
        } by {
            assert(c0.contains_key(x));
        }
        assert forall|k: ListKey, x: Id| #[trigger] l1[k].contains(x) implies x.higher == 0 && x.lower < s1.next_id() by {
            if k.owner == vertex {
                assert(l1[k] =~= Seq::<Id>::empty());
            } else {
                lemma_count_kept(types, c0, k.schema, l0[k], vertex, x);
                assert(l0[k].contains(x));
            }
        }
    }
}

proof fn lemma_push_facts()
    ensures
        forall|s: Seq<Id>, x: Id, y: Id| #[trigger] count_of(s.push(x), y) == count_of(s, y) + if x == y {
            1nat
        } else {
            0nat
        },
        forall|s: Seq<Id>, a: Id, x: Id| #[trigger] s.push(a).contains(x) ==> s.contains(x) || x == a,
{
    assert forall|s: Seq<Id>, x: Id, y: Id| #[trigger] count_of(s.push(x), y) == count_of(s, y) + if x == y {
        1nat
    } else {
        0nat
    } by {
        lemma_count_push(s, x, y);
    }
    assert forall|s: Seq<Id>, a: Id, x: Id| #[trigger] s.push(a).contains(x) implies s.contains(x) || x == a by {
        let i = choose|i: int| 0 <= i < s.len() + 1 && #[trigger] s.push(a)[i] == x;
        if i < s.len() {
            assert(s[i] == x);
        }
    }
}

/// Linking two vertices keeps the invariant.
pub proof fn lemma_link_keeps_invariant(
    types: Map<u32, SchemaType>,
    s0: CellStore,
    s1: CellStore,
    from: Id,
    schema: u32,
    to: Id,
    body: Option<crate::types::Body>,
    r: Result<Result<Edge, crate::graph::LinkVerticesError>, TxnError>,
)
    requires
        s0.wf(),
        graph_invariant(types, s0),
        crate::graph::link_post(types, s0, s1, from, schema, to, body, r),
    ensures
        graph_invariant(types, s1),
{
    if crate::graph::link_failure(types, s0, from, schema, to, body is Some) is None {
        let ea = types[schema]->Edge_0;
        let eid = Id { higher: 0, lower: s0.next_id() };
        let c0 = s0.cells();
        let c1 = s1.cells();
        let l0 = s0.lists();
        let l1 = s1.lists();
        s0.lemma_ids_below_next();
        lemma_push_facts();
        assert(c0.contains_key(from) && c0.contains_key(to));
        assert forall|k: ListKey| k.schema != schema implies #[trigger] l1[k] == l0[k] by {}
        assert forall|k: ListKey| !l0[k].contains(eid) by {
            if l0[k].contains(eid) {
                assert(eid.lower < s0.next_id());
            }
        }
        if ea.has_body {
            let data = crate::graph::edge_cell_data(ea.edge_type, body->Some_0@, from, to);
            let (k1, k2) = crate::graph::endpoint_keys(ea.edge_type);
            assert(k1 != k2);
            assert(data.drop_last().last() == (k1, Value::Id(from)));
            assert(data.last() == (k2, Value::Id(to)));
            assert(field_of(data, k1) == field_of(data.drop_last(), k1));
            assert(edge_ends(types, c1[eid]) == Some((ea, from, to)));
        }
        assert forall|e: Id|
            #![trigger edge_ends(types, c1[e])]
            c1.contains_key(e) && edge_ends(types, c1[e]) is Some implies {
                let (ea2, x, y) = edge_ends(types, c1[e])->Some_0;
                let sc = c1[e].schema;
                if ea2.edge_type == EdgeType::Directed {
                    count_of(l1[lk(x, OUTBOUND_KEY_ID, sc)], e) == 1 && count_of(l1[lk(y, INBOUND_KEY_ID, sc)], e) == 1
                } else {
                    count_of(l1[lk(x, UNDIRECTED_KEY_ID, sc)], e) == 1 && count_of(l1[lk(y, UNDIRECTED_KEY_ID, sc)], e)
                        == 1
                }
            } by {
            let (ea2, x, y) = edge_ends(types, c1[e])->Some_0;
            let sc = c1[e].schema;
            let (ka, kb) = if ea2.edge_type == EdgeType::Directed {
                (lk(x, OUTBOUND_KEY_ID, sc), lk(y, INBOUND_KEY_ID, sc))
            } else {
                (lk(x, UNDIRECTED_KEY_ID, sc), lk(y, UNDIRECTED_KEY_ID, sc))
            };
            lemma_count_absent(l0[ka], eid);
            lemma_count_absent(l0[kb], eid);
            if ea.has_body && e == eid {
                assert(ea2 == ea && x == from && y == to && sc == schema);
            } else {
                assert(c0.contains_key(e) && c1[e] == c0[e]);
                assert(edge_ends(types, c0[e]) is Some);
                assert(e != eid);
                if !ea.has_body {
                    assert(sc != schema);
                    assert(l1[ka] == l0[ka]);
                    assert(l1[kb] == l0[kb]);
                }
            }
        }
        assert forall|sc: u32, x: Id, y: Id|
            #![trigger count_of(l1[lk(x, OUTBOUND_KEY_ID, sc)], y)]
            #![trigger count_of(l1[lk(y, INBOUND_KEY_ID, sc)], x)]
            types.get(sc) == Some(SchemaType::Edge(EdgeAttributes { edge_type: EdgeType::Directed, has_body: false }))
                implies count_of(l1[lk(x, OUTBOUND_KEY_ID, sc)], y) == count_of(l1[lk(y, INBOUND_KEY_ID, sc)], x) by {
            assert(count_of(l0[lk(x, OUTBOUND_KEY_ID, sc)], y) == count_of(l0[lk(y, INBOUND_KEY_ID, sc)], x));
            if sc != schema {
                assert(l1[lk(x, OUTBOUND_KEY_ID, sc)] == l0[lk(x, OUTBOUND_KEY_ID, sc)]);
                assert(l1[lk(y, INBOUND_KEY_ID, sc)] == l0[lk(y, INBOUND_KEY_ID, sc)]);
            }
        }
        assert forall|sc: u32, x: Id, y: Id|
            #![trigger count_of(l1[lk(x, UNDIRECTED_KEY_ID, sc)], y)]
            types.get(sc) == Some(SchemaType::Edge(EdgeAttributes { edge_type: EdgeType::Undirected, has_body: false }))
                implies count_of(l1[lk(x, UNDIRECTED_KEY_ID, sc)], y) == count_of(l1[lk(y, UNDIRECTED_KEY_ID, sc)], x) by {
            assert(count_of(l0[lk(x, UNDIRECTED_KEY_ID, sc)], y) == count_of(l0[lk(y, UNDIRECTED_KEY_ID, sc)], x));
            if sc != schema {
                assert(l1[lk(x, UNDIRECTED_KEY_ID, sc)] == l0[lk(x, UNDIRECTED_KEY_ID, sc)]);
                assert(l1[lk(y, UNDIRECTED_KEY_ID, sc)] == l0[lk(y, UNDIRECTED_KEY_ID, sc)]);
            }
        }
        assert forall|x: Id| #[trigger] c1.contains_key(x) implies match types.get(c1[x].schema) {
            Some(SchemaType::Edge(ea2)) => ea2.has_body,
            _ => true,
        } by {
            if !(ea.has_body && x == eid) {
                assert(c0.contains_key(x) && c1[x] == c0[x]);
            }
        }
        assert forall|k: ListKey, x: Id| #[trigger] l1[k].contains(x) implies x.higher == 0 && x.lower < s1.next_id() by {
            assert(s1.next_id() >= s0.next_id());
        }
    }
}

/// Updating a vertex keeps the invariant.
pub proof fn lemma_update_vertex_keeps_invariant<U: Fn(Vertex) -> Option<Vertex>>(
    types: Map<u32, SchemaType>,
    s0: CellStore,
    s1: CellStore,
    vertex: Id,
    update: U,
)
    requires
        graph_invariant(types, s0),
        crate::graph::update_vertex_post(types, s0, s1, vertex, update),
    ensures
        graph_invariant(types, s1),
{
    if crate::graph::is_vertex_cell(types, s0, vertex) && s1 != s0 {
        let c0 = s0.cells();
        let c1 = s1.cells();
        assert(c1 == c0.insert(vertex, c1[vertex]) && c1[vertex].schema == c0[vertex].schema);
        assert forall|e: Id|
            #![trigger edge_ends(types, c1[e])]
            c1.contains_key(e) && edge_ends(types, c1[e]) is Some implies c0.contains_key(e) && c1[e] == c0[e] by {
            if e == vertex {
                assert(types.get(c1[e].schema) == Some(SchemaType::Vertex));
            }
        }
        assert forall|x: Id| #[trigger] c1.contains_key(x) implies match types.get(c1[x].schema) {
            Some(SchemaType::Edge(ea)) => ea.has_body,
            _ => true,
        } by {
            assert(c0.contains_key(x));
        }
    }
}

} // verus!




