use vstd::prelude::*;

use crate::base::{HasPos, Pos};

verus! {

/// A value paired with the place in the sources where it was declared.
pub struct Node<T> {
    pub value: T,
    pub position: Pos,
}

impl<T> Node<T> {
    pub fn new(value: T, position: Pos) -> (r: Node<T>)
        ensures
            r.value == value,
            r.position == position,
    {
        Node { value, position }
    }

    pub fn position(&self) -> (r: Pos)
        ensures
            r == self.position,
    {
        self.position
    }

    pub fn into_value(self) -> (r: T)
        ensures
            r == self.value,
    {
        self.value
    }
}

/// A name with its position.
pub type Ident = Node<String>;

/// A type reference as written (`Int`, `[String!]!`).
pub type TypeRef = Node<String>;

/// A constant value as written (`1`, `"a"`, `[1, 2]`).
pub type ValueText = Node<String>;

/// An argument given to a directive.
pub struct Argument {
    pub name: Ident,
    pub value: ValueText,
}

/// A use of a directive, such as `@deprecated(reason: "x")`.
pub struct Directive {
    pub position: Pos,
    pub name: Ident,
    pub arguments: Vec<Argument>,
}

/// An argument or input field definition.
pub struct InputValueDefinition {
    pub description: Option<Node<String>>,
    pub name: Ident,
    pub ty: TypeRef,
    pub default_value: Option<ValueText>,
    pub directives: Vec<Directive>,
}

/// A field of an object type.
pub struct FieldDefinition {
    pub description: Option<Node<String>>,
    pub name: Ident,
    pub arguments: Vec<InputValueDefinition>,
    pub ty: TypeRef,
    pub directives: Vec<Directive>,
}

pub struct ScalarTypeDefinition {
    pub description: Option<Node<String>>,
    pub position: Pos,
    pub name: Ident,
    pub directives: Vec<Directive>,
}

pub struct ObjectTypeDefinition {
    pub description: Option<Node<String>>,
    pub position: Pos,
    pub name: Ident,
    pub implements: Vec<Ident>,
    pub directives: Vec<Directive>,
    pub fields: Vec<FieldDefinition>,
}

/// An original type declaration.
pub enum TypeDefinition {
    Scalar(ScalarTypeDefinition),
    Object(ObjectTypeDefinition),
}

pub struct ScalarTypeExtension {
    pub position: Pos,
    pub name: Ident,
    pub directives: Vec<Directive>,
}

pub struct ObjectTypeExtension {
    pub position: Pos,
    pub name: Ident,
    pub implements: Vec<Ident>,
    pub directives: Vec<Directive>,
    pub fields: Vec<FieldDefinition>,
}

/// An `extend` block for a type.
pub enum TypeExtension {
    Scalar(ScalarTypeExtension),
    Object(ObjectTypeExtension),
}

/// A `directive @name(...) on ...` declaration.
pub struct DirectiveDefinition {
    pub description: Option<Node<String>>,
    pub position: Pos,
    pub name: Ident,
    pub arguments: Vec<InputValueDefinition>,
    pub repeatable: bool,
    pub locations: Vec<Ident>,
}

/// The query, mutation and subscription root types.
pub struct RootTypes {
    pub query: Option<Ident>,
    pub mutation: Option<Ident>,
    pub subscription: Option<Ident>,
}

/// The unnamed `schema { ... }` block.
pub struct SchemaDefinition {
    pub description: Option<Node<String>>,
    pub position: Pos,
    pub directives: Vec<Directive>,
    pub root_types: RootTypes,
}

/// An `extend schema { ... }` block.
pub struct SchemaExtension {
    pub position: Pos,
    pub directives: Vec<Directive>,
    pub root_types: RootTypes,
}

/// One top-level item of a schema document.
pub enum TypeSystemDefinitionOrExtension {
    SchemaDefinition(SchemaDefinition),
    TypeDefinition(TypeDefinition),
    DirectiveDefinition(DirectiveDefinition),
    SchemaExtension(SchemaExtension),
    TypeExtension(TypeExtension),
}

impl TypeDefinition {
    pub open spec fn spec_name(&self) -> Ident {
        match self {
            TypeDefinition::Scalar(d) => d.name,
            TypeDefinition::Object(d) => d.name,
        }
    }

    pub open spec fn spec_position(&self) -> Pos {
        match self {
            TypeDefinition::Scalar(d) => d.position,
            TypeDefinition::Object(d) => d.position,
        }
    }

    pub fn def_name(&self) -> (r: &Ident)
        ensures
            *r == self.spec_name(),
    {
        match self {
            TypeDefinition::Scalar(d) => &d.name,
            TypeDefinition::Object(d) => &d.name,
        }
    }
}

impl TypeExtension {
    pub open spec fn spec_name(&self) -> Ident {
        match self {
            TypeExtension::Scalar(d) => d.name,
            TypeExtension::Object(d) => d.name,
        }
    }

    pub open spec fn spec_position(&self) -> Pos {
        match self {
            TypeExtension::Scalar(d) => d.position,
            TypeExtension::Object(d) => d.position,
        }
    }
}

impl HasPos for TypeDefinition {
    open spec fn name_view(&self) -> Option<Seq<char>> {
        Some(self.spec_name().value@)
    }

    open spec fn pos_view(&self) -> Pos {
        self.spec_position()
    }

    fn name(&self) -> (r: Option<&str>) {
        match self {
            TypeDefinition::Scalar(d) => Some(d.name.value.as_str()),
            TypeDefinition::Object(d) => Some(d.name.value.as_str()),
        }
    }

    fn position(&self) -> (r: Pos) {
        match self {
            TypeDefinition::Scalar(d) => d.position,
            TypeDefinition::Object(d) => d.position,
        }
    }
}

impl HasPos for TypeExtension {
    open spec fn name_view(&self) -> Option<Seq<char>> {
        Some(self.spec_name().value@)
    }

    open spec fn pos_view(&self) -> Pos {
        self.spec_position()
    }

    fn name(&self) -> (r: Option<&str>) {
        match self {
            TypeExtension::Scalar(d) => Some(d.name.value.as_str()),
            TypeExtension::Object(d) => Some(d.name.value.as_str()),
        }
    }

    fn position(&self) -> (r: Pos) {
        match self {
            TypeExtension::Scalar(d) => d.position,
            TypeExtension::Object(d) => d.position,
        }
    }
}

impl HasPos for DirectiveDefinition {
    open spec fn name_view(&self) -> Option<Seq<char>> {
        Some(self.name.value@)
    }

    open spec fn pos_view(&self) -> Pos {
        self.position
    }

    fn name(&self) -> (r: Option<&str>) {
        Some(self.name.value.as_str())
    }

    fn position(&self) -> (r: Pos) {
        self.position
    }
}

impl HasPos for SchemaDefinition {
    open spec fn name_view(&self) -> Option<Seq<char>> {
        None
    }

    open spec fn pos_view(&self) -> Pos {
        self.position
    }

    fn name(&self) -> (r: Option<&str>) {
        None
    }

    fn position(&self) -> (r: Pos) {
        self.position
    }
}

impl HasPos for SchemaExtension {
    open spec fn name_view(&self) -> Option<Seq<char>> {
        None
    }

    open spec fn pos_view(&self) -> Pos {
        self.position
    }

    fn name(&self) -> (r: Option<&str>) {
        None
    }

    fn position(&self) -> (r: Pos) {
        self.position
    }
}

} // verus!
