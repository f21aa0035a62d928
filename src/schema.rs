use vstd::prelude::*;

use crate::ast::{DirectiveDefinition, Node, RootTypes, TypeDefinition};
use crate::ordered_index::{insert_entry, keys_unique, lookup, Entries, OrderedIndex};

verus! {

/// Representation of a GraphQL type system.
pub struct Schema {
    description: Option<Node<String>>,
    type_definitions: OrderedIndex<Node<TypeDefinition>>,
    directive_definitions: OrderedIndex<DirectiveDefinition>,
    root_types: Node<RootTypes>,
}

impl Schema {
    /// Types by name, in order of first declaration.
    pub closed spec fn types(&self) -> Entries<Node<TypeDefinition>> {
        self.type_definitions@
    }

    /// Directives by name, in order of first declaration.
    pub closed spec fn directives(&self) -> Entries<DirectiveDefinition> {
        self.directive_definitions@
    }

    pub closed spec fn spec_description(&self) -> Option<Node<String>> {
        self.description
    }

    pub closed spec fn spec_root_types(&self) -> Node<RootTypes> {
        self.root_types
    }

    pub closed spec fn wf(&self) -> bool {
        self.type_definitions.wf() && self.directive_definitions.wf()
    }

    /// A schema with no types and no directives.
    pub fn new(description: Option<Node<String>>, root_types: Node<RootTypes>) -> (r: Schema)
        ensures
            r.wf(),
            r.types() == Seq::<(Seq<char>, Node<TypeDefinition>)>::empty(),
            r.directives() == Seq::<(Seq<char>, DirectiveDefinition)>::empty(),
            r.spec_description() == description,
            r.spec_root_types() == root_types,
    {
        Schema {
            description,
            type_definitions: OrderedIndex::new(),
            directive_definitions: OrderedIndex::new(),
            root_types,
        }
    }

    /// Stores a type under its name.
    pub fn insert_type(&mut self, def: Node<TypeDefinition>)
        requires
            old(self).wf(),
        ensures
            final(self).wf(),
            final(self).types() == insert_entry(
                old(self).types(),
                def.value.spec_name().value@,
                def,
            ),
            final(self).directives() == old(self).directives(),
            final(self).spec_description() == old(self).spec_description(),
            final(self).spec_root_types() == old(self).spec_root_types(),
    {
        let name = def.value.def_name().value.clone();
        self.type_definitions.insert(name, def);
    }

    /// Stores a directive under its name.
    pub fn insert_directive(&mut self, def: DirectiveDefinition)
        requires
            old(self).wf(),
        ensures
            final(self).wf(),
            final(self).directives() == insert_entry(old(self).directives(), def.name.value@, def),
            final(self).types() == old(self).types(),
            final(self).spec_description() == old(self).spec_description(),
            final(self).spec_root_types() == old(self).spec_root_types(),
    {
        let name = def.name.value.clone();
        self.directive_definitions.insert(name, def);
    }

    /// Returns the set of root operation types.
    pub fn root_types(&self) -> (r: &Node<RootTypes>)
        ensures
            *r == self.spec_root_types(),
    {
        &self.root_types
    }

    /// Returns the description of the schema.
    pub fn description(&self) -> (r: &Option<Node<String>>)
        ensures
            *r == self.spec_description(),
    {
        &self.description
    }

    /// Queries a type by name.
    pub fn get_type(&self, name: &str) -> (r: Option<&Node<TypeDefinition>>)
        requires
            self.wf(),
        ensures
            match r {
                Some(v) => lookup(self.types(), name@) == Some(*v),
                None => lookup(self.types(), name@) is None,
            },
    {
        self.type_definitions.get(name)
    }

    /// Queries a directive by name.
    pub fn get_directive(&self, name: &str) -> (r: Option<&DirectiveDefinition>)
        requires
            self.wf(),
        ensures
            match r {
                Some(v) => lookup(self.directives(), name@) == Some(*v),
                None => lookup(self.directives(), name@) is None,
            },
    {
        self.directive_definitions.get(name)
    }

    /// All types with their names, in order of first declaration.
    pub fn iter_types(&self) -> (r: Vec<(&String, &Node<TypeDefinition>)>)
        requires
            self.wf(),
        ensures
            r@.len() == self.types().len(),
            forall|i: int|
                0 <= i < r@.len() ==> (#[trigger] r@[i]).0@ == self.types()[i].0 && *r@[i].1
                    == self.types()[i].1,
    {
        self.type_definitions.entries()
    }

    /// All directives with their names, in order of first declaration.
    pub fn iter_directives(&self) -> (r: Vec<(&String, &DirectiveDefinition)>)
        requires
            self.wf(),
        ensures
            r@.len() == self.directives().len(),
            forall|i: int|
                0 <= i < r@.len() ==> (#[trigger] r@[i]).0@ == self.directives()[i].0 && *r@[i].1
                    == self.directives()[i].1,
    {
        self.directive_definitions.entries()
    }

    /// The names of the types are unique.
    pub proof fn lemma_types_unique(&self)
        requires
            self.wf(),
        ensures
            keys_unique(self.types()),
            keys_unique(self.directives()),
    {
        self.type_definitions.lemma_wf();
        self.directive_definitions.lemma_wf();
    }
}

} // verus!
