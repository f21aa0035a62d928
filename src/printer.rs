use vstd::prelude::*;
use vstd::string::StringExecFns;

use crate::ast::{FieldDefinition, Node, TypeDefinition};
use crate::ordered_index::{lemma_index_from, lemma_lookup_insert, lookup, Entries, OrderedIndex};
use crate::schema::Schema;

verus! {

pub struct SchemaTypePrinterOptions {
    /// Type of each scalar, as TypeScript source, by scalar name.
    pub scalar_types: OrderedIndex<String>,
    /// Special type name for types that includes schema metadata.
    pub schema_metadata_type: String,
    /// Whether to make input nullable fields optional.
    pub input_nullable_field_is_optional: bool,
}

impl Default for SchemaTypePrinterOptions {
    fn default() -> (r: Self)
        ensures
            r.scalar_types.wf(),
            builtin_scalars(r.scalar_types@),
            r.schema_metadata_type@ == "__nitrogql_schema"@,
            r.input_nullable_field_is_optional,
    {
        SchemaTypePrinterOptions {
            scalar_types: get_builtin_scalar_types(),
            schema_metadata_type: "__nitrogql_schema".to_owned(),
            input_nullable_field_is_optional: true,
        }
    }
}

/// The TypeScript type of each built-in scalar.
pub open spec fn builtin_scalars(e: Entries<String>) -> bool {
    &&& e.len() == 5
    &&& lookup(e, "ID"@) is Some && lookup(e, "ID"@)->Some_0@ == "string"@
    &&& lookup(e, "String"@) is Some && lookup(e, "String"@)->Some_0@ == "string"@
    &&& lookup(e, "Int"@) is Some && lookup(e, "Int"@)->Some_0@ == "number"@
    &&& lookup(e, "Float"@) is Some && lookup(e, "Float"@)->Some_0@ == "number"@
    &&& lookup(e, "Boolean"@) is Some && lookup(e, "Boolean"@)->Some_0@ == "boolean"@
}

/// Generates scalar definitions for built-in scalars.
pub fn get_builtin_scalar_types() -> (r: OrderedIndex<String>)
    ensures
        r.wf(),
        builtin_scalars(r@),
{
    proof {
        reveal_strlit("ID");
        reveal_strlit("String");
        reveal_strlit("Int");
        reveal_strlit("Float");
        reveal_strlit("Boolean");
    }
    let mut r: OrderedIndex<String> = OrderedIndex::new();
    let ghost e0 = r@;
    let v0 = "string".to_owned();
    let ghost g0 = v0;
    proof {
        lemma_index_from(e0, "ID"@, 0);
    }
    r.insert("ID".to_owned(), v0);
    let ghost e1 = r@;
    assert(e1 == e0.push(("ID"@, g0)));
    let v1 = "string".to_owned();
    let ghost g1 = v1;
    proof {
        assert("ID"@.len() == 2 && "String"@.len() == 6);
        assert(e1[0].0 != "String"@);
        lemma_index_from(e1, "String"@, 0);
    }
    r.insert("String".to_owned(), v1);
    let ghost e2 = r@;
    assert(e2 == e1.push(("String"@, g1)));
    let v2 = "number".to_owned();
    let ghost g2 = v2;
    proof {
        assert("Int"@.len() == 3);
        assert(e2[0].0 != "Int"@);
        assert(e2[1].0 != "Int"@);
        lemma_index_from(e2, "Int"@, 0);
    }
    r.insert("Int".to_owned(), v2);
    let ghost e3 = r@;
    assert(e3 == e2.push(("Int"@, g2)));
    let v3 = "number".to_owned();
    let ghost g3 = v3;
    proof {
        assert("Float"@.len() == 5);
        assert(e3[0].0 != "Float"@);
        assert(e3[1].0 != "Float"@);
        assert(e3[2].0 != "Float"@);
        lemma_index_from(e3, "Float"@, 0);
    }
    r.insert("Float".to_owned(), v3);
    let ghost e4 = r@;
    assert(e4 == e3.push(("Float"@, g3)));
    let v4 = "boolean".to_owned();
    let ghost g4 = v4;
    proof {
        assert("Boolean"@.len() == 7);
        assert(e4[0].0 != "Boolean"@);
        assert(e4[1].0 != "Boolean"@);
        assert(e4[2].0 != "Boolean"@);
        assert(e4[3].0 != "Boolean"@);
        lemma_index_from(e4, "Boolean"@, 0);
    }
    r.insert("Boolean".to_owned(), v4);
    let ghost e5 = r@;
    assert(e5 == e4.push(("Boolean"@, g4)));
    proof {
        lemma_lookup_insert(e0, "ID"@, g0, "ID"@);
        lemma_lookup_insert(e1, "String"@, g1, "ID"@);
        lemma_lookup_insert(e2, "Int"@, g2, "ID"@);
        lemma_lookup_insert(e3, "Float"@, g3, "ID"@);
        lemma_lookup_insert(e4, "Boolean"@, g4, "ID"@);
        lemma_lookup_insert(e1, "String"@, g1, "String"@);
        lemma_lookup_insert(e2, "Int"@, g2, "String"@);
        lemma_lookup_insert(e3, "Float"@, g3, "String"@);
        lemma_lookup_insert(e4, "Boolean"@, g4, "String"@);
        lemma_lookup_insert(e2, "Int"@, g2, "Int"@);
        lemma_lookup_insert(e3, "Float"@, g3, "Int"@);
        lemma_lookup_insert(e4, "Boolean"@, g4, "Int"@);
        lemma_lookup_insert(e3, "Float"@, g3, "Float"@);
        lemma_lookup_insert(e4, "Boolean"@, g4, "Float"@);
        lemma_lookup_insert(e4, "Boolean"@, g4, "Boolean"@);
    }
    r
}

/// The TypeScript type that a scalar is declared as: its entry in `scalars`, or `unknown`.
pub open spec fn scalar_ts(scalars: Entries<String>, name: Seq<char>) -> Seq<char> {
    match lookup(scalars, name) {
        Some(t) => t@,
        None => "unknown"@,
    }
}

/// One line per field: its name and its type as declared.
pub open spec fn fields_text(fs: Seq<FieldDefinition>) -> Seq<char>
    decreases fs.len(),
{
    if fs.len() == 0 {
        Seq::empty()
    } else {
        fields_text(fs.drop_last()) + "  "@ + fs.last().name.value@ + ": "@ + fs.last().ty.value@
            + ";\n"@
    }
}

/// The declaration of one type.
pub open spec fn type_text(scalars: Entries<String>, t: TypeDefinition) -> Seq<char> {
    match t {
        TypeDefinition::Scalar(d) => "export type "@ + d.name.value@ + " = "@ + scalar_ts(
            scalars,
            d.name.value@,
        ) + ";\n"@,
        TypeDefinition::Object(d) => "export type "@ + d.name.value@ + " = {\n"@ + fields_text(
            d.fields@,
        ) + "};\n"@,
    }
}

/// The declarations of the types `ts`, in order.
pub open spec fn types_text(scalars: Entries<String>, ts: Seq<TypeDefinition>) -> Seq<char>
    decreases ts.len(),
{
    if ts.len() == 0 {
        Seq::empty()
    } else {
        types_text(scalars, ts.drop_last()) + type_text(scalars, ts.last())
    }
}

/// The type definitions of a schema, in its order.
pub open spec fn schema_types(s: Schema) -> Seq<TypeDefinition> {
    s.types().map_values(|e: (Seq<char>, Node<TypeDefinition>)| e.1.value)
}

/// Prints TypeScript declarations for the types of a schema.
pub struct SchemaTypePrinter {
    options: SchemaTypePrinterOptions,
    output: String,
}

impl SchemaTypePrinter {
    /// The options the printer was made with.
    pub closed spec fn options(&self) -> SchemaTypePrinterOptions {
        self.options
    }

    pub open spec fn scalars(&self) -> Entries<String> {
        self.options().scalar_types@
    }

    pub open spec fn wf(&self) -> bool {
        self.options().scalar_types.wf()
    }

    /// What has been printed so far.
    pub closed spec fn printed(&self) -> Seq<char> {
        self.output@
    }

    pub fn new(options: SchemaTypePrinterOptions) -> (r: Self)
        requires
            options.scalar_types.wf(),
        ensures
            r.wf(),
            r.options() == options,
            r.printed() == Seq::<char>::empty(),
    {
        SchemaTypePrinter { options, output: String::new() }
    }

    /// What has been printed so far.
    pub fn output(&self) -> (r: &String)
        ensures
            r@ == self.printed(),
    {
        &self.output
    }

    fn print_fields(&mut self, fields: &Vec<FieldDefinition>)
        ensures
            final(self).printed() == old(self).printed() + fields_text(fields@),
            final(self).options() == old(self).options(),
    {
        let mut i: usize = 0;
        while i < fields.len()
            invariant
                i <= fields@.len(),
                self.printed() == old(self).printed() + fields_text(fields@.take(i as int)),
                self.options() == old(self).options(),
            decreases fields@.len() - i,
        {
            let f = &fields[i];
            assert(fields@.take(i + 1).drop_last() =~= fields@.take(i as int));
            assert(fields@.take(i + 1).last() == *f);
            self.output.append("  ");
            self.output.append(f.name.value.as_str());
            self.output.append(": ");
            self.output.append(f.ty.value.as_str());
            self.output.append(";\n");
            i = i + 1;
            assert(self.printed() =~= old(self).printed() + fields_text(fields@.take(i as int)));
        }
        assert(fields@.take(i as int) =~= fields@);
    }

    fn print_type(&mut self, t: &TypeDefinition)
        requires
            old(self).wf(),
        ensures
            final(self).wf(),
            final(self).printed() == old(self).printed() + type_text(old(self).scalars(), *t),
            final(self).options() == old(self).options(),
    {
        match t {
            TypeDefinition::Scalar(d) => {
                self.output.append("export type ");
                self.output.append(d.name.value.as_str());
                self.output.append(" = ");
                match self.options.scalar_types.get(d.name.value.as_str()) {
                    Some(ts) => self.output.append(ts.as_str()),
                    None => self.output.append("unknown"),
                }
                self.output.append(";\n");
                assert(self.printed() =~= old(self).printed() + type_text(old(self).scalars(), *t));
            },
            TypeDefinition::Object(d) => {
                self.output.append("export type ");
                self.output.append(d.name.value.as_str());
                self.output.append(" = {\n");
                self.print_fields(&d.fields);
                self.output.append("};\n");
                assert(self.printed() =~= old(self).printed() + type_text(old(self).scalars(), *t));
            },
        }
    }

    /// Appends the declaration of every type of the schema, in the schema's order.
    pub fn print_document(&mut self, schema: &Schema)
        requires
            old(self).wf(),
            schema.wf(),
        ensures
            final(self).wf(),
            final(self).options() == old(self).options(),
            final(self).printed() == old(self).printed() + types_text(
                old(self).scalars(),
                schema_types(*schema),
            ),
    {
        let types = schema.iter_types();
        let ghost ts = schema_types(*schema);
        let mut i: usize = 0;
        while i < types.len()
            invariant
                self.wf(),
                i <= types@.len(),
                types@.len() == ts.len(),
                forall|t: int| 0 <= t < ts.len() ==> *(#[trigger] types@[t]).1 == (
                schema.types()[t].1),
                ts == schema_types(*schema),
                self.options() == old(self).options(),
                self.printed() == old(self).printed() + types_text(
                    old(self).scalars(),
                    ts.take(i as int),
                ),
            decreases types@.len() - i,
        {
            let (_, node) = types[i];
            assert(ts[i as int] == node.value);
            assert(ts.take(i + 1).drop_last() =~= ts.take(i as int));
            self.print_type(&node.value);
            i = i + 1;
            assert(self.printed() =~= old(self).printed() + types_text(
                old(self).scalars(),
                ts.take(i as int),
            ));
        }
        assert(ts.take(i as int) =~= ts);
    }
}

} // verus!
