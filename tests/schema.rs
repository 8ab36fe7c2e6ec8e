use morpheus::schema::{
    cell_fields, EdgeAttributes, EdgeType, Field, MorpheusSchema, SchemaContainer, SchemaError, SchemaType,
};
use morpheus::fields::{
    FIRST_USER_SCHEMA_ID, ID_LIST_SCHEMA_ID, INBOUND_KEY_ID, TYPE_LIST_SCHEMA_ID, VERTEX_A_KEY_ID, VERTEX_FROM_KEY_ID,
};
use morpheus::graph::Graph;
use morpheus::schema::Schema;
use morpheus::types::{TYPE_I64, TYPE_STRING};

fn user_fields() -> Vec<Field> {
    vec![Field::new("name", 20, TYPE_STRING, false), Field::new("age", 21, TYPE_I64, true)]
}

#[test]
fn vertex_layout_leads_with_slots() {
    let f = cell_fields(SchemaType::Vertex, user_fields()).unwrap();
    assert_eq!(f.len(), 5);
    assert_eq!(f[0].key_id, INBOUND_KEY_ID);
    assert_eq!(f[0].name, "_inbound");
    assert_eq!(f[2].name, "_undirected");
    assert_eq!(f[3].name, "name");
    assert_eq!(f[4].key_id, 21);
}

#[test]
fn edge_layouts_lead_with_endpoints() {
    let d = EdgeAttributes { edge_type: EdgeType::Directed, has_body: true };
    let f = cell_fields(SchemaType::Edge(d), user_fields()).unwrap();
    assert_eq!(f.len(), 4);
    assert_eq!(f[0].key_id, VERTEX_FROM_KEY_ID);
    assert_eq!(f[1].name, "_vertex_to");
    let u = EdgeAttributes { edge_type: EdgeType::Undirected, has_body: false };
    let f = cell_fields(SchemaType::Edge(u), vec![]).unwrap();
    assert_eq!(f.len(), 2);
    assert_eq!(f[0].key_id, VERTEX_A_KEY_ID);
    assert_eq!(f[1].name, "_vertex_b");
}

#[test]
fn layout_errors() {
    let u = EdgeAttributes { edge_type: EdgeType::Undirected, has_body: false };
    assert_eq!(cell_fields(SchemaType::Edge(u), user_fields()).err(), Some(SchemaError::SimpleEdgeShouldNotHaveSchema));
    assert_eq!(cell_fields(SchemaType::Unspecified, user_fields()).err(), Some(SchemaError::SchemaTypeUnspecified));
}

#[test]
fn registry_assigns_ids_and_names() {
    let mut c = SchemaContainer::new();
    let mut s = MorpheusSchema::new("person", None, &user_fields(), false);
    s.schema_type = SchemaType::Vertex;
    let id = c.new_schema(s).unwrap();
    assert_eq!(id, FIRST_USER_SCHEMA_ID);
    assert_eq!(c.schema_type(id), Some(SchemaType::Vertex));
    assert_eq!(c.id_from_name("person"), Some(id));
    assert_eq!(c.id_from_name("nobody"), None);
    let m = c.from_name("person").unwrap();
    assert_eq!(m.id, id);
    assert_eq!(m.fields.len(), 5);
    assert_eq!(c.count(), 1);
    let mut again = MorpheusSchema::new("person", None, &vec![], false);
    again.schema_type = SchemaType::Vertex;
    assert_eq!(c.new_schema(again).err(), Some(SchemaError::NewNebSchemaExecError));
    let unspecified = MorpheusSchema::new("thing", None, &vec![], false);
    assert_eq!(c.new_schema(unspecified).err(), Some(SchemaError::SchemaTypeUnspecified));
    let mut e = MorpheusSchema::new("knows", Some(&vec!["since".to_string()]), &vec![], true);
    e.schema_type = SchemaType::Edge(EdgeAttributes { edge_type: EdgeType::Directed, has_body: true });
    let eid = c.new_schema(e).unwrap();
    assert_eq!(eid, id + 1);
    let all = c.all_morpheus_schemas();
    assert_eq!(all.len(), 2);
    assert_eq!(all[1].id, eid);
    assert!(all[1].is_dynamic);
    assert_eq!(all[1].key_field, Some(vec!["since".to_string()]));
    let r = MorpheusSchema::new("x", None, &vec![], false).into_ref();
    assert_eq!(r.name, "x");
}

#[test]
fn registry_follows_replicated_entries() {
    let d = SchemaType::Edge(EdgeAttributes { edge_type: EdgeType::Directed, has_body: false });
    let entries = vec![(40, SchemaType::Vertex), (41, d), (40, d)];
    let mut c = SchemaContainer::from_entries(&entries);
    assert_eq!(c.schema_type(40), Some(d));
    assert_eq!(c.schema_type(41), Some(d));
    assert_eq!(c.schema_type(42), None);
    c.apply_removed(41);
    assert_eq!(c.schema_type(41), None);
    c.apply_inserted(43, SchemaType::Vertex);
    assert_eq!(c.schema_type(43), Some(SchemaType::Vertex));
    let mut s = MorpheusSchema::new("late", None, &vec![], false);
    s.schema_type = SchemaType::Vertex;
    assert_eq!(c.new_schema(s), Ok(44));
}

#[test]
fn registry_survives_insert_remove_churn() {
    let mut c = SchemaContainer::new();
    for id in 100u32..3100 {
        c.apply_inserted(id, SchemaType::Vertex);
        c.apply_removed(id);
    }
    assert_eq!(c.schema_type(7), None);
    c.apply_removed(5);
    assert_eq!(c.schema_type(5), None);
    c.apply_inserted(9, SchemaType::Vertex);
    assert_eq!(c.schema_type(9), Some(SchemaType::Vertex));
}

#[test]
fn existing_base_layout_is_kept() {
    let mut c = SchemaContainer::new();
    c.new_schema_with_id(Schema::new_with_id(ID_LIST_SCHEMA_ID, "mine", None, vec![], true));
    let g = Graph::new(c);
    let kept = g.schemas.get_neb_schema(ID_LIST_SCHEMA_ID).unwrap();
    assert_eq!(kept.name, "mine");
    assert!(kept.is_dynamic);
    let fresh = g.schemas.get_neb_schema(TYPE_LIST_SCHEMA_ID).unwrap();
    assert_eq!(fresh.name, "_NEB_TYPE_ID_LIST");
    assert_eq!(fresh.fields[2].name, "type");
}

#[test]
fn edge_group_layout_and_listing() {
    let mut g = Graph::new(SchemaContainer::new());
    let attrs = EdgeAttributes { edge_type: EdgeType::Undirected, has_body: true };
    let id = g.new_edge_group(MorpheusSchema::new("likes", None, &user_fields(), false), attrs).unwrap();
    let l = g.schemas.get_neb_schema(id).unwrap();
    assert_eq!(l.fields.len(), 4);
    assert_eq!(l.fields[0].key_id, VERTEX_A_KEY_ID);
    assert_eq!(l.fields[2].name, "name");
    let all = g.schemas.all_morpheus_schemas();
    assert_eq!(all.len(), 1);
    assert_eq!(all[0].name, "likes");
    assert_eq!(all[0].fields.len(), 4);
    assert_eq!(all[0].schema_type, SchemaType::Edge(attrs));
    let simple = EdgeAttributes { edge_type: EdgeType::Directed, has_body: false };
    let r = g.new_edge_group(MorpheusSchema::new("bad", None, &user_fields(), false), simple);
    assert_eq!(r, Err(SchemaError::SimpleEdgeShouldNotHaveSchema));
}
