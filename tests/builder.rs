use nitrogql::base::Pos;
use nitrogql::builder::{build_directives, build_type_definition, ParseNode, Rule};
use nitrogql::ast::TypeDefinition;

fn leaf(rule: Rule, text: &str, col: usize) -> ParseNode {
    ParseNode { rule, text: text.to_owned(), position: Pos::new(0, 0, col), children: vec![] }
}

fn inner(rule: Rule, col: usize, children: Vec<ParseNode>) -> ParseNode {
    ParseNode { rule, text: String::new(), position: Pos::new(0, 0, col), children }
}

#[test]
fn object_type_with_fields_and_arguments() {
    // type Query { foo: Int bar(x: Int = 1): String }
    let foo = inner(
        Rule::FieldDefinition,
        13,
        vec![leaf(Rule::Name, "foo", 13), leaf(Rule::Type, "Int", 18)],
    );
    let x = inner(
        Rule::InputValueDefinition,
        26,
        vec![
            leaf(Rule::Name, "x", 26),
            leaf(Rule::Type, "Int", 29),
            inner(Rule::DefaultValue, 33, vec![leaf(Rule::Value, "1", 35)]),
        ],
    );
    let bar = inner(
        Rule::FieldDefinition,
        22,
        vec![
            leaf(Rule::Name, "bar", 22),
            inner(Rule::ArgumentsDefinition, 25, vec![x]),
            leaf(Rule::Type, "String", 39),
        ],
    );
    let object = inner(
        Rule::ObjectTypeDefinition,
        0,
        vec![
            leaf(Rule::KeywordType, "type", 0),
            leaf(Rule::Name, "Query", 5),
            inner(Rule::FieldsDefinition, 11, vec![foo, bar]),
        ],
    );
    let node = inner(Rule::TypeDefinition, 0, vec![object]);
    match build_type_definition(&node) {
        TypeDefinition::Object(d) => {
            assert_eq!(d.name.value, "Query");
            assert_eq!(d.name.position, Pos::new(0, 0, 5));
            assert!(d.description.is_none());
            assert!(d.implements.is_empty());
            assert!(d.directives.is_empty());
            assert_eq!(d.fields.len(), 2);
            assert_eq!(d.fields[0].name.value, "foo");
            assert_eq!(d.fields[0].ty.value, "Int");
            assert!(d.fields[0].arguments.is_empty());
            assert_eq!(d.fields[1].name.value, "bar");
            assert_eq!(d.fields[1].ty.value, "String");
            assert_eq!(d.fields[1].arguments.len(), 1);
            let arg = &d.fields[1].arguments[0];
            assert_eq!(arg.name.value, "x");
            assert_eq!(arg.ty.value, "Int");
            assert_eq!(arg.default_value.as_ref().unwrap().value, "1");
        }
        TypeDefinition::Scalar(_) => panic!("expected an object"),
    }
}

#[test]
fn scalar_type_with_description_and_directive() {
    let directives = inner(
        Rule::Directives,
        17,
        vec![inner(
            Rule::Directive,
            17,
            vec![
                leaf(Rule::Name, "specifiedBy", 18),
                inner(
                    Rule::Arguments,
                    29,
                    vec![inner(
                        Rule::Argument,
                        30,
                        vec![leaf(Rule::Name, "url", 30), leaf(Rule::Value, "\"u\"", 35)],
                    )],
                ),
            ],
        )],
    );
    let scalar = inner(
        Rule::ScalarTypeDefinition,
        0,
        vec![
            leaf(Rule::Description, "\"doc\"", 0),
            leaf(Rule::KeywordScalar, "scalar", 6),
            leaf(Rule::Name, "Url", 13),
            directives,
        ],
    );
    let node = inner(Rule::TypeDefinition, 0, vec![scalar]);
    match build_type_definition(&node) {
        TypeDefinition::Scalar(d) => {
            assert_eq!(d.name.value, "Url");
            assert_eq!(d.description.unwrap().value, "\"doc\"");
            assert_eq!(d.directives.len(), 1);
            assert_eq!(d.directives[0].name.value, "specifiedBy");
            assert_eq!(d.directives[0].position, Pos::new(0, 0, 17));
            assert_eq!(d.directives[0].arguments[0].name.value, "url");
            assert_eq!(d.directives[0].arguments[0].value.value, "\"u\"");
        }
        TypeDefinition::Object(_) => panic!("expected a scalar"),
    }
}

#[test]
fn object_type_with_interfaces() {
    let implements = inner(
        Rule::ImplementsInterfaces,
        7,
        vec![
            leaf(Rule::KeywordImplements, "implements", 7),
            leaf(Rule::NamedType, "A", 18),
            leaf(Rule::NamedType, "B", 22),
        ],
    );
    let object = inner(
        Rule::ObjectTypeDefinition,
        0,
        vec![leaf(Rule::KeywordType, "type", 0), leaf(Rule::Name, "T", 5), implements],
    );
    let node = inner(Rule::TypeDefinition, 0, vec![object]);
    match build_type_definition(&node) {
        TypeDefinition::Object(d) => {
            let names: Vec<String> = d.implements.iter().map(|i| i.value.clone()).collect();
            assert_eq!(names, vec!["A".to_owned(), "B".to_owned()]);
            assert!(d.fields.is_empty());
        }
        TypeDefinition::Scalar(_) => panic!("expected an object"),
    }
}

#[test]
fn empty_directives_node_builds_nothing() {
    let node = inner(Rule::Directives, 0, vec![]);
    assert!(build_directives(&node).is_empty());
}
