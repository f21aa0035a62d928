use nitrogql::ast::{FieldDefinition, Node, ObjectTypeDefinition, RootTypes, ScalarTypeDefinition, TypeDefinition};
use nitrogql::base::Pos;
use nitrogql::command::{select_command, Command};
use nitrogql::printer::{get_builtin_scalar_types, SchemaTypePrinter, SchemaTypePrinterOptions};
use nitrogql::schema::Schema;
use nitrogql::text::{text_eq, Text};

fn ident(name: &str) -> Node<String> {
    Node::new(name.to_owned(), Pos::new(0, 0, 0))
}

#[test]
fn builtin_scalars_map_to_typescript() {
    let scalars = get_builtin_scalar_types();
    assert_eq!(scalars.get("ID").unwrap(), "string");
    assert_eq!(scalars.get("String").unwrap(), "string");
    assert_eq!(scalars.get("Int").unwrap(), "number");
    assert_eq!(scalars.get("Float").unwrap(), "number");
    assert_eq!(scalars.get("Boolean").unwrap(), "boolean");
    assert!(scalars.get("Date").is_none());
    assert_eq!(scalars.entries().len(), 5);
}

#[test]
fn default_options() {
    let options = SchemaTypePrinterOptions::default();
    assert_eq!(options.schema_metadata_type, "__nitrogql_schema");
    assert!(options.input_nullable_field_is_optional);
    assert_eq!(options.scalar_types.get("Int").unwrap(), "number");
}

#[test]
fn prints_types_in_schema_order() {
    let mut schema = Schema::new(
        None,
        Node::new(RootTypes { query: None, mutation: None, subscription: None }, Pos::new(0, 0, 0)),
    );
    schema.insert_type(Node::new(
        TypeDefinition::Object(ObjectTypeDefinition {
            description: None,
            position: Pos::new(0, 0, 0),
            name: ident("Query"),
            implements: vec![],
            directives: vec![],
            fields: vec![FieldDefinition {
                description: None,
                name: ident("foo"),
                arguments: vec![],
                ty: ident("Int"),
                directives: vec![],
            }],
        }),
        Pos::new(0, 0, 0),
    ));
    for name in ["Int", "Date"] {
        schema.insert_type(Node::new(
            TypeDefinition::Scalar(ScalarTypeDefinition {
                description: None,
                position: Pos::new(0, 1, 0),
                name: ident(name),
                directives: vec![],
            }),
            Pos::new(0, 1, 0),
        ));
    }
    let mut printer = SchemaTypePrinter::new(SchemaTypePrinterOptions::default());
    printer.print_document(&schema);
    assert_eq!(
        printer.output(),
        "export type Query = {\n  foo: Int;\n};\nexport type Int = number;\nexport type Date = unknown;\n"
    );
}

#[test]
fn text_equality_ignores_storage() {
    let owned: String = Text::from_str_slice("Foo");
    let borrowed: &str = Text::from_str_slice("Foo");
    assert!(text_eq(&owned, &borrowed));
    assert!(!text_eq(&owned, &"Bar"));
    assert_eq!(borrowed.as_text(), "Foo");
}

#[test]
fn command_words_select_commands() {
    assert_eq!(select_command("check"), Ok(Command::Check));
    assert_eq!(select_command("generate"), Ok(Command::Generate));
    assert_eq!(select_command("build"), Err("build".to_owned()));
}
