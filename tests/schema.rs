use nitrogql::ast::{Node, RootTypes, ScalarTypeDefinition, TypeDefinition};
use nitrogql::base::Pos;
use nitrogql::schema::Schema;

fn scalar_node(name: &str, line: usize) -> Node<TypeDefinition> {
    Node::new(
        TypeDefinition::Scalar(ScalarTypeDefinition {
            description: None,
            position: Pos::new(0, line, 0),
            name: Node::new(name.to_owned(), Pos::new(0, line, 7)),
            directives: vec![],
        }),
        Pos::new(0, line, 0),
    )
}

fn empty_schema() -> Schema {
    Schema::new(
        None,
        Node::new(RootTypes { query: None, mutation: None, subscription: None }, Pos::new(0, 0, 0)),
    )
}

#[test]
fn types_iterate_in_insertion_order() {
    let mut schema = empty_schema();
    schema.insert_type(scalar_node("B", 1));
    schema.insert_type(scalar_node("A", 2));
    schema.insert_type(scalar_node("C", 3));
    let names: Vec<String> = schema.iter_types().iter().map(|(n, _)| (*n).clone()).collect();
    assert_eq!(names, vec!["B".to_owned(), "A".to_owned(), "C".to_owned()]);
}

#[test]
fn reinsert_keeps_first_place() {
    let mut schema = empty_schema();
    schema.insert_type(scalar_node("B", 1));
    schema.insert_type(scalar_node("A", 2));
    schema.insert_type(scalar_node("B", 9));
    let types = schema.iter_types();
    assert_eq!(types.len(), 2);
    assert_eq!(types[0].0, "B");
    assert_eq!(types[0].1.position, Pos::new(0, 9, 0));
}

#[test]
fn lookup_finds_inserted_and_nothing_else() {
    let mut schema = empty_schema();
    assert!(schema.get_type("Foo").is_none());
    schema.insert_type(scalar_node("Foo", 4));
    let foo = schema.get_type("Foo").unwrap();
    assert_eq!(foo.position, Pos::new(0, 4, 0));
    match &foo.value {
        TypeDefinition::Scalar(d) => assert_eq!(d.name.value, "Foo"),
        TypeDefinition::Object(_) => panic!("expected a scalar"),
    }
    assert!(schema.get_type("foo").is_none());
    assert!(schema.get_type("Bar").is_none());
    assert!(schema.get_directive("Foo").is_none());
}
