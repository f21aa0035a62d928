use nitrogql::assemble::{merge_root_types, merge_type_definition, resolve_extensions};
use nitrogql::ast::{
    Directive, DirectiveDefinition, FieldDefinition, Ident, Node, ObjectTypeDefinition,
    ObjectTypeExtension, RootTypes, ScalarTypeDefinition, ScalarTypeExtension, SchemaDefinition,
    SchemaExtension, TypeDefinition, TypeExtension, TypeSystemDefinitionOrExtension,
};
use nitrogql::base::{HasPos, Pos};
use nitrogql::extension_list::{ExtensionError, ExtensionList};

fn ident(name: &str, line: usize) -> Ident {
    Node::new(name.to_owned(), Pos::new(0, line, 0))
}

fn directive(name: &str, line: usize) -> Directive {
    Directive { position: Pos::new(0, line, 0), name: ident(name, line), arguments: vec![] }
}

fn scalar(name: &str, line: usize) -> TypeDefinition {
    TypeDefinition::Scalar(ScalarTypeDefinition {
        description: None,
        position: Pos::new(0, line, 0),
        name: ident(name, line),
        directives: vec![],
    })
}

fn scalar_ext(name: &str, line: usize, dir: &str) -> TypeExtension {
    TypeExtension::Scalar(ScalarTypeExtension {
        position: Pos::new(0, line, 0),
        name: ident(name, line),
        directives: vec![directive(dir, line)],
    })
}

fn field(name: &str, ty: &str, line: usize) -> FieldDefinition {
    FieldDefinition {
        description: None,
        name: ident(name, line),
        arguments: vec![],
        ty: ident(ty, line),
        directives: vec![],
    }
}

fn schema_ext(line: usize, query: Option<&str>) -> SchemaExtension {
    SchemaExtension {
        position: Pos::new(0, line, 0),
        directives: vec![],
        root_types: RootTypes { query: query.map(|q| ident(q, line)), mutation: None, subscription: None },
    }
}

fn directive_names(t: &TypeDefinition) -> Vec<String> {
    let ds = match t {
        TypeDefinition::Scalar(d) => &d.directives,
        TypeDefinition::Object(d) => &d.directives,
    };
    ds.iter().map(|d| d.name.value.clone()).collect()
}

#[test]
fn original_with_extensions_forms_one_group() {
    let mut list: ExtensionList<TypeDefinition, TypeExtension> = ExtensionList::new("type");
    list.add_extension(scalar_ext("Foo", 1, "a"));
    list.set_original(scalar("Bar", 2)).ok().unwrap();
    list.set_original(scalar("Foo", 3)).ok().unwrap();
    list.add_extension(scalar_ext("Foo", 4, "b"));
    let groups = list.into_original_and_extensions().ok().unwrap();
    assert_eq!(groups.len(), 2);
    assert_eq!(groups[0].0.def_name().value, "Bar");
    assert!(groups[0].1.is_empty());
    assert_eq!(groups[1].0.def_name().value, "Foo");
    let exts: Vec<String> = groups[1]
        .1
        .iter()
        .map(|e| match e {
            TypeExtension::Scalar(s) => s.directives[0].name.value.clone(),
            TypeExtension::Object(_) => String::new(),
        })
        .collect();
    assert_eq!(exts, vec!["a".to_owned(), "b".to_owned()]);
}

#[test]
fn scalar_extension_adds_directive() {
    let doc = vec![
        TypeSystemDefinitionOrExtension::TypeDefinition(scalar("Foo", 1)),
        TypeSystemDefinitionOrExtension::TypeExtension(scalar_ext("Foo", 2, "deprecated")),
    ];
    let schema = resolve_extensions(doc).ok().unwrap();
    let types = schema.iter_types();
    assert_eq!(types.len(), 1);
    assert_eq!(types[0].0, "Foo");
    let foo = schema.get_type("Foo").unwrap();
    assert_eq!(foo.position, Pos::new(0, 1, 0));
    assert_eq!(directive_names(&foo.value), vec!["deprecated".to_owned()]);
}

#[test]
fn extension_without_original_fails() {
    let doc = vec![TypeSystemDefinitionOrExtension::TypeExtension(scalar_ext("Foo", 7, "x"))];
    match resolve_extensions(doc) {
        Err(ExtensionError::NoOriginal { name_of_elem, name, first_extension }) => {
            assert_eq!(name_of_elem, "type");
            assert_eq!(name, Some("Foo".to_owned()));
            assert_eq!(first_extension, Pos::new(0, 7, 0));
        }
        _ => panic!("expected NoOriginal"),
    }
}

#[test]
fn duplicate_original_fails() {
    let doc = vec![
        TypeSystemDefinitionOrExtension::TypeDefinition(scalar("Foo", 1)),
        TypeSystemDefinitionOrExtension::TypeDefinition(scalar("Foo", 5)),
    ];
    match resolve_extensions(doc) {
        Err(ExtensionError::DuplicateOriginal { name_of_elem, name, first, second }) => {
            assert_eq!(name_of_elem, "type");
            assert_eq!(name, Some("Foo".to_owned()));
            assert_eq!(first, Pos::new(0, 1, 0));
            assert_eq!(second, Pos::new(0, 5, 0));
        }
        _ => panic!("expected DuplicateOriginal"),
    }
}

#[test]
fn duplicate_original_in_list_keeps_first() {
    let mut list: ExtensionList<TypeDefinition, TypeExtension> = ExtensionList::new("type");
    assert!(list.set_original(scalar("Foo", 1)).is_ok());
    assert!(list.set_original(scalar("Foo", 2)).is_err());
    let groups = list.into_original_and_extensions().ok().unwrap();
    assert_eq!(groups.len(), 1);
    assert_eq!(groups[0].0.position(), Pos::new(0, 1, 0));
}

#[test]
fn unnamed_schema_extensions_without_schema_fail() {
    let doc = vec![
        TypeSystemDefinitionOrExtension::SchemaExtension(schema_ext(3, Some("Query"))),
        TypeSystemDefinitionOrExtension::SchemaExtension(schema_ext(9, None)),
    ];
    match resolve_extensions(doc) {
        Err(ExtensionError::NoOriginal { name_of_elem, name, first_extension }) => {
            assert_eq!(name_of_elem, "schema");
            assert_eq!(name, None);
            assert_eq!(first_extension, Pos::new(0, 3, 0));
        }
        _ => panic!("expected NoOriginal"),
    }
}

#[test]
fn duplicate_schema_blocks_fail() {
    let block = |line: usize| SchemaDefinition {
        description: None,
        position: Pos::new(0, line, 0),
        directives: vec![],
        root_types: RootTypes { query: None, mutation: None, subscription: None },
    };
    let doc = vec![
        TypeSystemDefinitionOrExtension::SchemaDefinition(block(1)),
        TypeSystemDefinitionOrExtension::SchemaDefinition(block(2)),
    ];
    match resolve_extensions(doc) {
        Err(ExtensionError::DuplicateOriginal { name_of_elem, name, first, second }) => {
            assert_eq!(name_of_elem, "schema");
            assert_eq!(name, None);
            assert_eq!(first, Pos::new(0, 1, 0));
            assert_eq!(second, Pos::new(0, 2, 0));
        }
        _ => panic!("expected DuplicateOriginal"),
    }
}

#[test]
fn schema_extension_fills_unset_root_types() {
    let original = SchemaDefinition {
        description: Some(ident("main", 0)),
        position: Pos::new(0, 1, 0),
        directives: vec![],
        root_types: RootTypes { query: Some(ident("Q", 1)), mutation: None, subscription: None },
    };
    let mut e2 = schema_ext(4, Some("Other"));
    e2.root_types.mutation = Some(ident("M", 4));
    let (description, roots) = merge_root_types(original, vec![schema_ext(3, None), e2]);
    assert_eq!(description.unwrap().value, "main");
    assert_eq!(roots.position, Pos::new(0, 1, 0));
    assert_eq!(roots.value.query.unwrap().value, "Q");
    assert_eq!(roots.value.mutation.unwrap().value, "M");
    assert!(roots.value.subscription.is_none());
}

#[test]
fn object_extension_appends_members() {
    let original = TypeDefinition::Object(ObjectTypeDefinition {
        description: None,
        position: Pos::new(0, 1, 0),
        name: ident("Query", 1),
        implements: vec![ident("Node", 1)],
        directives: vec![directive("a", 1)],
        fields: vec![field("foo", "Int", 2)],
    });
    let ext = TypeExtension::Object(ObjectTypeExtension {
        position: Pos::new(1, 0, 0),
        name: ident("Query", 0),
        implements: vec![ident("Entity", 0)],
        directives: vec![directive("b", 0)],
        fields: vec![field("bar", "String", 1)],
    });
    let merged = merge_type_definition(original, vec![scalar_ext("Query", 5, "c"), ext]);
    match merged {
        TypeDefinition::Object(d) => {
            let names: Vec<String> = d.fields.iter().map(|f| f.name.value.clone()).collect();
            assert_eq!(names, vec!["foo".to_owned(), "bar".to_owned()]);
            let ifaces: Vec<String> = d.implements.iter().map(|f| f.value.clone()).collect();
            assert_eq!(ifaces, vec!["Node".to_owned(), "Entity".to_owned()]);
            let dirs: Vec<String> = d.directives.iter().map(|f| f.name.value.clone()).collect();
            assert_eq!(dirs, vec!["a".to_owned(), "c".to_owned(), "b".to_owned()]);
        }
        TypeDefinition::Scalar(_) => panic!("expected an object"),
    }
}

#[test]
fn directive_definitions_are_indexed() {
    let def = |name: &str, line: usize| DirectiveDefinition {
        description: None,
        position: Pos::new(0, line, 0),
        name: ident(name, line),
        arguments: vec![],
        repeatable: false,
        locations: vec![ident("FIELD", line)],
    };
    let doc = vec![
        TypeSystemDefinitionOrExtension::DirectiveDefinition(def("b", 1)),
        TypeSystemDefinitionOrExtension::DirectiveDefinition(def("a", 2)),
    ];
    let schema = resolve_extensions(doc).ok().unwrap();
    let names: Vec<String> = schema.iter_directives().iter().map(|(n, _)| (*n).clone()).collect();
    assert_eq!(names, vec!["b".to_owned(), "a".to_owned()]);
    assert_eq!(schema.get_directive("a").unwrap().position, Pos::new(0, 2, 0));
    assert!(schema.get_directive("c").is_none());
    assert!(schema.root_types().value.query.is_none());
}

#[test]
fn types_follow_order_of_originals() {
    let object = |name: &str, line: usize, field_name: &str| {
        TypeDefinition::Object(ObjectTypeDefinition {
            description: None,
            position: Pos::new(0, line, 0),
            name: ident(name, line),
            implements: vec![],
            directives: vec![],
            fields: vec![field(field_name, "Int", line)],
        })
    };
    let doc = vec![
        TypeSystemDefinitionOrExtension::TypeExtension(TypeExtension::Object(ObjectTypeExtension {
            position: Pos::new(0, 0, 0),
            name: ident("A", 0),
            implements: vec![],
            directives: vec![directive("d", 0)],
            fields: vec![],
        })),
        TypeSystemDefinitionOrExtension::TypeDefinition(object("B", 1, "x")),
        TypeSystemDefinitionOrExtension::TypeDefinition(object("A", 2, "y")),
    ];
    let schema = resolve_extensions(doc).ok().unwrap();
    let names: Vec<String> = schema.iter_types().iter().map(|(n, _)| (*n).clone()).collect();
    assert_eq!(names, vec!["B".to_owned(), "A".to_owned()]);
    assert_eq!(directive_names(&schema.get_type("A").unwrap().value), vec!["d".to_owned()]);
}

#[test]
fn list_orders_groups_by_original() {
    let mut list: ExtensionList<TypeDefinition, TypeExtension> = ExtensionList::new("type");
    list.add_extension(scalar_ext("A", 0, "d"));
    list.set_original(scalar("B", 1)).ok().unwrap();
    list.set_original(scalar("A", 2)).ok().unwrap();
    let groups = list.into_original_and_extensions().ok().unwrap();
    assert_eq!(groups[0].0.def_name().value, "B");
    assert_eq!(groups[1].0.def_name().value, "A");
    assert_eq!(groups[1].1.len(), 1);
}
