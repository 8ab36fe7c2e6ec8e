use morpheus::graph::{
    Edge, EdgeDirection, EdgeError, Expr, Graph, LinkVerticesError, NeighbourhoodError, NewVertexError,
    Operand, TxnError, Vertex, eval_expr_exec,
};
use morpheus::schema::{EdgeAttributes, EdgeType, Field, MorpheusSchema, SchemaContainer, SchemaType};
use morpheus::store::ListKey;
use morpheus::types::{get_field, Body, Id, Value, TYPE_I64, TYPE_STRING};
use morpheus::fields::{ID_LIST_SCHEMA_ID, INBOUND_KEY_ID, OUTBOUND_KEY_ID, TYPE_LIST_SCHEMA_ID, UNDIRECTED_KEY_ID};

const NAME: u64 = 20;
const SINCE: u64 = 21;
const W: u64 = 22;

fn vertex_schema(g: &mut Graph, name: &str) -> u32 {
    let fields = vec![Field::new("name", NAME, TYPE_STRING, false)];
    g.new_vertex_group(MorpheusSchema::new(name, None, &fields, false)).unwrap()
}

fn edge_schema(g: &mut Graph, name: &str, edge_type: EdgeType, field: Option<u64>) -> u32 {
    let fields = match field {
        Some(k) => vec![Field::new("since", k, TYPE_I64, false)],
        None => vec![],
    };
    let attrs = EdgeAttributes { edge_type, has_body: field.is_some() };
    g.new_edge_group(MorpheusSchema::new(name, None, &fields, false), attrs).unwrap()
}

fn named(name: &str) -> Body {
    vec![(NAME, Value::Str(name.to_string()))]
}

fn body_of(k: u64, v: i64) -> Option<Body> {
    Some(vec![(k, Value::I64(v))])
}

fn degree(g: &Graph, v: Id, s: u32, d: EdgeDirection) -> usize {
    match g.degree(v, s, d) {
        Ok(Ok(n)) => n,
        _ => panic!("degree failed"),
    }
}

fn edge_id(e: &Edge) -> Id {
    match e {
        Edge::Directed { cell: Some(c), .. } => c.id,
        Edge::Undirected { cell: Some(c), .. } => c.id,
        _ => panic!("edge has no cell"),
    }
}

struct People {
    g: Graph,
    person: u32,
    knows: u32,
    a: Vertex,
    b: Vertex,
}

fn people() -> People {
    let mut g = Graph::new(SchemaContainer::new());
    let person = vertex_schema(&mut g, "person");
    let knows = edge_schema(&mut g, "knows", EdgeType::Directed, Some(SINCE));
    let a = g.new_vertex(person, named("A")).unwrap();
    let b = g.new_vertex(person, named("B")).unwrap();
    People { g, person, knows, a, b }
}

#[test]
fn directed_link_degrees_and_neighbourhood() {
    let mut p = people();
    let e = p.g.link(p.a.id, p.knows, p.b.id, body_of(SINCE, 2020)).unwrap().unwrap();
    assert_eq!(degree(&p.g, p.a.id, p.knows, EdgeDirection::Outbound), 1);
    assert_eq!(degree(&p.g, p.b.id, p.knows, EdgeDirection::Inbound), 1);
    assert_eq!(degree(&p.g, p.a.id, p.knows, EdgeDirection::Inbound), 0);
    let n = p.g.neighbourhoods(p.a.id, p.knows, EdgeDirection::Outbound, &None).unwrap().unwrap();
    assert_eq!(n.len(), 1);
    assert_eq!(n[0].0.id, p.b.id);
    assert!(matches!(get_field(&n[0].0.data, NAME), Some(Value::Str(s)) if s == "B"));
    assert!(matches!(get_field(n[0].1.body().unwrap(), SINCE), Some(Value::I64(2020))));
    assert_eq!(edge_id(&n[0].1), edge_id(&e));
    assert_eq!(n[0].1.endpoints(), (p.a.id, p.b.id));
}

#[test]
fn remove_vertex_drains_directed_edges() {
    let mut p = people();
    let e = p.g.link(p.a.id, p.knows, p.b.id, body_of(SINCE, 2020)).unwrap().unwrap();
    assert_eq!(p.g.remove_vertex(p.b.id), Ok(()));
    assert!(matches!(p.g.vertex_by(p.b.id), Ok(None)));
    assert_eq!(degree(&p.g, p.a.id, p.knows, EdgeDirection::Outbound), 0);
    assert!(p.g.store.read(edge_id(&e)).is_none());
    for id in p.g.store.cell_ids() {
        let c = p.g.store.read(id).unwrap();
        assert_ne!(c.schema, p.knows);
    }
}

#[test]
fn simple_undirected_edge_has_no_cell() {
    let mut p = people();
    let friend = edge_schema(&mut p.g, "friend", EdgeType::Undirected, None);
    let cells_before = p.g.store.cell_ids().len();
    let e = p.g.link(p.a.id, friend, p.b.id, None).unwrap().unwrap();
    assert!(e.body().is_none());
    assert_eq!(degree(&p.g, p.a.id, friend, EdgeDirection::Undirected), 1);
    assert_eq!(degree(&p.g, p.b.id, friend, EdgeDirection::Undirected), 1);
    let n = p.g.neighbourhoods(p.a.id, friend, EdgeDirection::Undirected, &None).unwrap().unwrap();
    assert_eq!(n.len(), 1);
    assert_eq!(n[0].0.id, p.b.id);
    assert_eq!(p.g.store.cell_ids().len(), cells_before);
    for id in p.g.store.cell_ids() {
        assert_ne!(p.g.store.read(id).unwrap().schema, friend);
    }
    let r = p.g.link(p.a.id, friend, p.b.id, body_of(W, 1));
    assert!(matches!(r, Ok(Err(LinkVerticesError::BodyShouldNotExisted))));
}

#[test]
fn undirected_self_loop_is_listed_once() {
    let mut p = people();
    let equal = edge_schema(&mut p.g, "equal", EdgeType::Undirected, Some(W));
    p.g.link(p.a.id, equal, p.a.id, body_of(W, 1)).unwrap().unwrap();
    assert_eq!(degree(&p.g, p.a.id, equal, EdgeDirection::Undirected), 1);
    let n = p.g.neighbourhoods(p.a.id, equal, EdgeDirection::Undirected, &None).unwrap().unwrap();
    assert_eq!(n.len(), 1);
    assert_eq!(n[0].0.id, p.a.id);
    assert_eq!(n[0].1.one_opposite_id_vertex_id(p.a.id), Some(p.a.id));
}

#[test]
fn hundred_spokes_and_failing_filter() {
    let mut g = Graph::new(SchemaContainer::new());
    let person = vertex_schema(&mut g, "person");
    let knows = edge_schema(&mut g, "knows", EdgeType::Directed, Some(SINCE));
    let mut vs = Vec::new();
    for i in 0..100 {
        vs.push(g.new_vertex(person, named(&format!("v{}", i))).unwrap().id);
    }
    for i in 1..100 {
        g.link(vs[0], knows, vs[i], Some(vec![(W, Value::I64(i as i64))])).unwrap().unwrap();
    }
    assert_eq!(degree(&g, vs[0], knows, EdgeDirection::Outbound), 99);
    let f = Some(Expr::Gt(Operand::EdgeField(SINCE), 10));
    assert!(matches!(g.edges(vs[0], knows, EdgeDirection::Outbound, &f), Ok(Err(EdgeError::FilterEvalError(_)))));
    let all = g.edges(vs[0], knows, EdgeDirection::Outbound, &None).unwrap().unwrap();
    assert_eq!(all.len(), 99);
    let some = g.edges(vs[0], knows, EdgeDirection::Outbound, &Some(Expr::Gt(Operand::EdgeField(W), 89))).unwrap().unwrap();
    assert_eq!(some.len(), 10);
}

#[test]
fn link_and_new_vertex_schema_errors() {
    let mut p = people();
    let r = p.g.link(p.a.id, 9999, p.b.id, None);
    assert!(matches!(r, Ok(Err(LinkVerticesError::EdgeSchemaNotFound))));
    let r = p.g.link(p.a.id, p.person, p.b.id, None);
    assert!(matches!(r, Ok(Err(LinkVerticesError::SchemaNotEdge))));
    let r = p.g.new_vertex(p.knows, named("C"));
    assert!(matches!(
        r,
        Err(NewVertexError::SchemaNotVertex(SchemaType::Edge(EdgeAttributes { edge_type: EdgeType::Directed, has_body: true })))
    ));
}

#[test]
fn body_required_and_missing_vertex() {
    let mut p = people();
    assert!(matches!(p.g.link(p.a.id, p.knows, p.b.id, None), Ok(Err(LinkVerticesError::BodyRequired))));
    let ghost = Id::new(0, 4242);
    let r = p.g.link(p.a.id, p.knows, ghost, body_of(SINCE, 1));
    assert!(matches!(r, Ok(Err(LinkVerticesError::EdgeError(EdgeError::IdListError)))));
    assert!(matches!(p.g.degree(ghost, p.knows, EdgeDirection::Outbound), Ok(Err(EdgeError::IdListError))));
    assert_eq!(p.g.remove_vertex(ghost), Err(TxnError::Aborted));
}

#[test]
fn degree_schema_errors() {
    let p = people();
    assert!(matches!(p.g.degree(p.a.id, 9999, EdgeDirection::Outbound), Ok(Err(EdgeError::CannotFindSchema))));
    assert!(matches!(p.g.degree(p.a.id, p.person, EdgeDirection::Outbound), Ok(Err(EdgeError::WrongSchema))));
}

#[test]
fn new_vertex_layout_errors() {
    let mut p = people();
    assert!(matches!(p.g.new_vertex(9999, named("C")), Err(NewVertexError::SchemaNotFound)));
    let r = p.g.new_vertex(p.person, vec![(NAME, Value::I64(3))]);
    assert!(matches!(r, Err(NewVertexError::CannotGenerateCellByData)));
    assert!(matches!(p.g.new_vertex(p.person, vec![]), Err(NewVertexError::CannotGenerateCellByData)));
}

#[test]
fn vertex_codec_round_trip() {
    let p = people();
    let c = p.g.store.read(p.a.id).unwrap();
    assert_eq!(c.schema, p.person);
    assert!(matches!(get_field(&c.data, NAME), Some(Value::Str(s)) if s == "A"));
    for slot in [INBOUND_KEY_ID, OUTBOUND_KEY_ID, UNDIRECTED_KEY_ID] {
        assert!(matches!(get_field(&c.data, slot), Some(Value::Id(i)) if i.is_unit()));
    }
    let v = p.g.vertex_by(p.a.id).unwrap().unwrap();
    assert_eq!(v.id, p.a.id);
    assert_eq!(v.schema(), p.person);
}

#[test]
fn degree_equals_unfiltered_edge_count() {
    let mut p = people();
    for i in 0..3 {
        p.g.link(p.a.id, p.knows, p.b.id, body_of(SINCE, i)).unwrap().unwrap();
    }
    for d in [EdgeDirection::Inbound, EdgeDirection::Outbound, EdgeDirection::Undirected] {
        for v in [p.a.id, p.b.id] {
            let n = p.g.edges(v, p.knows, d, &None).unwrap().unwrap().len();
            assert_eq!(degree(&p.g, v, p.knows, d), n);
        }
    }
}

#[test]
fn constant_true_filter_is_neutral() {
    let mut p = people();
    for i in 0..4 {
        p.g.link(p.a.id, p.knows, p.b.id, body_of(SINCE, i)).unwrap().unwrap();
    }
    let all = p.g.edges(p.a.id, p.knows, EdgeDirection::Outbound, &None).unwrap().unwrap();
    let always = p.g.edges(p.a.id, p.knows, EdgeDirection::Outbound, &Some(Expr::Const(true))).unwrap().unwrap();
    let ids: Vec<Id> = all.iter().map(edge_id).collect();
    let always_ids: Vec<Id> = always.iter().map(edge_id).collect();
    assert_eq!(ids, always_ids);
    let some = p.g.edges(p.a.id, p.knows, EdgeDirection::Outbound, &Some(Expr::Lt(Operand::EdgeField(SINCE), 2))).unwrap().unwrap();
    assert_eq!(some.len(), 2);
    for e in &some {
        assert!(ids.contains(&edge_id(e)));
    }
}

#[test]
fn adjacency_stays_symmetric() {
    let mut p = people();
    let c = p.g.new_vertex(p.person, named("C")).unwrap();
    let friend = edge_schema(&mut p.g, "friend", EdgeType::Directed, None);
    let e1 = p.g.link(p.a.id, p.knows, p.b.id, body_of(SINCE, 1)).unwrap().unwrap();
    let e2 = p.g.link(p.b.id, p.knows, c.id, body_of(SINCE, 2)).unwrap().unwrap();
    p.g.link(p.a.id, friend, c.id, None).unwrap().unwrap();
    let out_a = p.g.store.list_ids(ListKey { owner: p.a.id, slot: OUTBOUND_KEY_ID, schema: p.knows });
    let in_b = p.g.store.list_ids(ListKey { owner: p.b.id, slot: INBOUND_KEY_ID, schema: p.knows });
    assert_eq!(out_a, vec![edge_id(&e1)]);
    assert_eq!(in_b, vec![edge_id(&e1)]);
    let f_out = p.g.store.list_ids(ListKey { owner: p.a.id, slot: OUTBOUND_KEY_ID, schema: friend });
    let f_in = p.g.store.list_ids(ListKey { owner: c.id, slot: INBOUND_KEY_ID, schema: friend });
    assert_eq!(f_out, vec![c.id]);
    assert_eq!(f_in, vec![p.a.id]);
    assert_eq!(p.g.remove_vertex(c.id), Ok(()));
    assert!(p.g.store.read(edge_id(&e2)).is_none());
    assert_eq!(degree(&p.g, p.b.id, p.knows, EdgeDirection::Outbound), 0);
    assert_eq!(degree(&p.g, p.a.id, friend, EdgeDirection::Outbound), 0);
    assert_eq!(degree(&p.g, p.a.id, p.knows, EdgeDirection::Outbound), 1);
}

#[test]
fn neighbourhood_failures() {
    let mut p = people();
    let friend = edge_schema(&mut p.g, "friend", EdgeType::Directed, None);
    let ghost = Id::new(0, 4242);
    p.g.store.append(ListKey { owner: p.a.id, slot: OUTBOUND_KEY_ID, schema: friend }, ghost);
    let r = p.g.neighbourhoods(p.a.id, friend, EdgeDirection::Outbound, &None);
    assert!(matches!(r, Ok(Err(NeighbourhoodError::VertexNotFound(i))) if i == ghost));
    let e = p.g.link(p.b.id, p.knows, p.b.id, body_of(SINCE, 5)).unwrap().unwrap();
    p.g.store.append(ListKey { owner: p.a.id, slot: INBOUND_KEY_ID, schema: p.knows }, edge_id(&e));
    let r = p.g.neighbourhoods(p.a.id, p.knows, EdgeDirection::Inbound, &None);
    assert!(matches!(r, Ok(Err(NeighbourhoodError::CannotFindOppositeId(i))) if i == p.a.id));
    p.g.store.append(ListKey { owner: p.b.id, slot: INBOUND_KEY_ID, schema: p.knows }, ghost);
    let r = p.g.edges(p.b.id, p.knows, EdgeDirection::Inbound, &None);
    assert!(matches!(r, Ok(Err(EdgeError::ReadError))));
    p.g.store.append(ListKey { owner: p.b.id, slot: OUTBOUND_KEY_ID, schema: p.knows }, p.a.id);
    let r = p.g.edges(p.b.id, p.knows, EdgeDirection::Outbound, &None);
    assert!(matches!(r, Ok(Err(EdgeError::WrongSchema))));
}

#[test]
fn neighbourhood_filter_sees_vertex() {
    let mut g = Graph::new(SchemaContainer::new());
    let fields = vec![Field::new("age", W, TYPE_I64, false)];
    let person = g.new_vertex_group(MorpheusSchema::new("person", None, &fields, false)).unwrap();
    let friend = edge_schema(&mut g, "friend", EdgeType::Undirected, None);
    let a = g.new_vertex(person, vec![(W, Value::I64(30))]).unwrap();
    let b = g.new_vertex(person, vec![(W, Value::I64(20))]).unwrap();
    let c = g.new_vertex(person, vec![(W, Value::I64(40))]).unwrap();
    g.link(a.id, friend, b.id, None).unwrap().unwrap();
    g.link(a.id, friend, c.id, None).unwrap().unwrap();
    let f = Some(Expr::Gt(Operand::VertexField(W), 25));
    let n = g.neighbourhoods(a.id, friend, EdgeDirection::Undirected, &f).unwrap().unwrap();
    assert_eq!(n.len(), 1);
    assert_eq!(n[0].0.id, c.id);
    let r = g.neighbourhoods(a.id, friend, EdgeDirection::Undirected, &Some(Expr::Gt(Operand::EdgeField(W), 1)));
    assert!(matches!(r, Ok(Err(NeighbourhoodError::FilterEvalError(_)))));
}

#[test]
fn expression_evaluation() {
    let body: Body = vec![(SINCE, Value::I64(7))];
    let gt = Expr::Gt(Operand::EdgeField(SINCE), 5);
    let lt = Expr::Lt(Operand::EdgeField(SINCE), 5);
    assert_eq!(eval_expr_exec(&gt, Some(&body), None), Ok(true));
    assert_eq!(eval_expr_exec(&lt, Some(&body), None), Ok(false));
    assert_eq!(eval_expr_exec(&Expr::Eq(Operand::EdgeField(SINCE), 7), Some(&body), None), Ok(true));
    let and = Expr::And(Box::new(Expr::Gt(Operand::EdgeField(SINCE), 5)), Box::new(Expr::Not(Box::new(lt))));
    assert_eq!(eval_expr_exec(&and, Some(&body), None), Ok(true));
    let or = Expr::Or(Box::new(Expr::Const(false)), Box::new(Expr::Lt(Operand::EdgeField(SINCE), 5)));
    assert_eq!(eval_expr_exec(&or, Some(&body), None), Ok(false));
    assert!(eval_expr_exec(&gt, None, None).is_err());
    assert!(eval_expr_exec(&Expr::Gt(Operand::VertexField(SINCE), 5), Some(&body), None).is_err());
}

#[test]
fn base_schemas_are_registered() {
    let g = Graph::new(SchemaContainer::new());
    assert!(g.schemas.get_neb_schema(ID_LIST_SCHEMA_ID).is_some());
    let t = g.schemas.get_neb_schema(TYPE_LIST_SCHEMA_ID).unwrap();
    assert_eq!(t.fields.len(), 3);
    assert_eq!(t.name, "_NEB_TYPE_ID_LIST");
    assert!(g.schemas.schema_type(ID_LIST_SCHEMA_ID).is_none());
}

#[test]
fn direction_fields() {
    assert_eq!(EdgeDirection::Inbound.as_field(), INBOUND_KEY_ID);
    assert_eq!(EdgeDirection::Outbound.as_field(), OUTBOUND_KEY_ID);
    assert_eq!(EdgeDirection::Undirected.as_field(), UNDIRECTED_KEY_ID);
    assert!(Id::unit_id().is_unit());
    assert!(!Id::new(0, 1).is_unit());
}

#[test]
fn update_vertex_replaces_body() {
    let mut p = people();
    let r = p.g.update_vertex(p.a.id, |v: Vertex| {
        let mut data = v.data;
        data.push((NAME, Value::Str("A2".to_string())));
        Some(Vertex { id: v.id, schema: v.schema, data })
    });
    assert_eq!(r, Ok(()));
    let v = p.g.vertex_by(p.a.id).unwrap().unwrap();
    assert!(matches!(get_field(&v.data, NAME), Some(Value::Str(s)) if s == "A2"));
    assert_eq!(v.schema, p.person);
    assert_eq!(p.g.update_vertex(p.b.id, |_v: Vertex| None), Ok(()));
    let b = p.g.vertex_by(p.b.id).unwrap().unwrap();
    assert!(matches!(get_field(&b.data, NAME), Some(Value::Str(s)) if s == "B"));
}

#[test]
fn update_leaves_edge_cells_alone() {
    let mut p = people();
    let e = p.g.link(p.a.id, p.knows, p.b.id, body_of(SINCE, 3)).unwrap().unwrap();
    let r = p.g.update_vertex(edge_id(&e), |v: Vertex| Some(Vertex { id: v.id, schema: v.schema, data: vec![] }));
    assert_eq!(r, Ok(()));
    let c = p.g.store.read(edge_id(&e)).unwrap();
    assert!(matches!(get_field(&c.data, SINCE), Some(Value::I64(3))));
}

#[test]
fn schema_named_by_string() {
    let mut p = people();
    let knows = "knows".to_string();
    let e = p.g.link(p.a.id, knows.clone(), p.b.id, body_of(SINCE, 9)).unwrap().unwrap();
    assert_eq!(e.schema_id(), p.knows);
    assert_eq!(e.edge_kind(), EdgeType::Directed);
    assert_eq!(degree(&p.g, p.a.id, p.knows, EdgeDirection::Outbound), 1);
    assert!(matches!(p.g.degree(p.b.id, knows, EdgeDirection::Inbound), Ok(Ok(1))));
    let missing = "missing".to_string();
    assert!(matches!(p.g.degree(p.b.id, missing, EdgeDirection::Inbound), Ok(Err(EdgeError::CannotFindSchema))));
}

#[test]
fn removing_an_edge_cell_is_refused() {
    let mut p = people();
    let e = p.g.link(p.a.id, p.knows, p.b.id, body_of(SINCE, 1)).unwrap().unwrap();
    assert_eq!(p.g.remove_vertex(edge_id(&e)), Err(TxnError::Aborted));
    assert!(p.g.store.read(edge_id(&e)).is_some());
    assert_eq!(degree(&p.g, p.a.id, p.knows, EdgeDirection::Outbound), 1);
}
