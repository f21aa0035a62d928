use vstd::prelude::*;

use crate::ast::{
    Directive, DirectiveDefinition, FieldDefinition, Ident, Node, ObjectTypeDefinition, RootTypes,
    ScalarTypeDefinition, SchemaDefinition, SchemaExtension, TypeDefinition, TypeExtension,
    TypeSystemDefinitionOrExtension,
};
use crate::base::{HasPos, Pos};
use crate::extension_list::{
    add_extension_model, first_orphan, groups_wf, lemma_first_orphan, orphan_error, set_original_model, ExtensionError,
    ExtensionErrorView, ExtensionList, Group,
};
use crate::ordered_index::lemma_index_from;
use crate::schema::Schema;

verus! {

/// The directives that the extensions add, in order.
pub open spec fn ext_directives(exts: Seq<TypeExtension>) -> Seq<Directive>
    decreases exts.len(),
{
    if exts.len() == 0 {
        Seq::empty()
    } else {
        ext_directives(exts.drop_last()) + match exts.last() {
            TypeExtension::Scalar(d) => d.directives@,
            TypeExtension::Object(d) => d.directives@,
        }
    }
}

/// The interfaces that the object extensions add, in order.
pub open spec fn ext_implements(exts: Seq<TypeExtension>) -> Seq<Ident>
    decreases exts.len(),
{
    if exts.len() == 0 {
        Seq::empty()
    } else {
        ext_implements(exts.drop_last()) + match exts.last() {
            TypeExtension::Scalar(d) => Seq::empty(),
            TypeExtension::Object(d) => d.implements@,
        }
    }
}

/// The fields that the object extensions add, in order.
pub open spec fn ext_fields(exts: Seq<TypeExtension>) -> Seq<FieldDefinition>
    decreases exts.len(),
{
    if exts.len() == 0 {
        Seq::empty()
    } else {
        ext_fields(exts.drop_last()) + match exts.last() {
            TypeExtension::Scalar(d) => Seq::empty(),
            TypeExtension::Object(d) => d.fields@,
        }
    }
}

/// `r` is `orig` with the members of `exts` appended after its own: directives for every
/// kind, interfaces and fields for objects.
pub open spec fn is_merged_type(orig: TypeDefinition, exts: Seq<TypeExtension>, r: TypeDefinition) -> bool {
    match orig {
        TypeDefinition::Scalar(d) => r is Scalar && {
            let m = r->Scalar_0;
            &&& m.description == d.description
            &&& m.position == d.position
            &&& m.name == d.name
            &&& m.directives@ == d.directives@ + ext_directives(exts)
        },
        TypeDefinition::Object(d) => r is Object && {
            let m = r->Object_0;
            &&& m.description == d.description
            &&& m.position == d.position
            &&& m.name == d.name
            &&& m.implements@ == d.implements@ + ext_implements(exts)
            &&& m.directives@ == d.directives@ + ext_directives(exts)
            &&& m.fields@ == d.fields@ + ext_fields(exts)
        },
    }
}

/// Folds the members of a type's extensions into the type.
pub fn merge_type_definition(original: TypeDefinition, extensions: Vec<TypeExtension>) -> (r:
    TypeDefinition)
    ensures
        is_merged_type(original, extensions@, r),
{
    let ghost exts = extensions@;
    let n = extensions.len();
    let mut implements: Vec<Ident> = Vec::new();
    let mut directives: Vec<Directive> = Vec::new();
    let mut fields: Vec<FieldDefinition> = Vec::new();
    let mut rest = extensions;
    let mut i: usize = 0;
    assert(exts.skip(0) =~= exts);
    assert(exts.take(0) =~= Seq::<TypeExtension>::empty());
    while rest.len() > 0
        invariant
            n == exts.len(),
            i + rest@.len() == n,
            rest@ == exts.skip(i as int),
            implements@ == ext_implements(exts.take(i as int)),
            directives@ == ext_directives(exts.take(i as int)),
            fields@ == ext_fields(exts.take(i as int)),
        decreases rest@.len(),
    {
        let ext = rest.remove(0);
        assert(ext == exts[i as int]);
        assert(rest@ =~= exts.skip(i + 1));
        assert(exts.take(i + 1).drop_last() =~= exts.take(i as int));
        assert(exts.take(i + 1).last() == ext);
        match ext {
            TypeExtension::Scalar(d) => {
                let mut ds = d.directives;
                directives.append(&mut ds);
                assert(implements@ =~= ext_implements(exts.take(i as int)) + Seq::<Ident>::empty());
                assert(fields@ =~= ext_fields(exts.take(i as int)) + Seq::<FieldDefinition>::empty());
            },
            TypeExtension::Object(d) => {
                let mut is = d.implements;
                let mut ds = d.directives;
                let mut fs = d.fields;
                implements.append(&mut is);
                directives.append(&mut ds);
                fields.append(&mut fs);
            },
        }
        i = i + 1;
    }
    assert(exts.take(i as int) =~= exts);
    match original {
        TypeDefinition::Scalar(d) => {
            let mut ds = d.directives;
            ds.append(&mut directives);
            TypeDefinition::Scalar(
                ScalarTypeDefinition {
                    description: d.description,
                    position: d.position,
                    name: d.name,
                    directives: ds,
                },
            )
        },
        TypeDefinition::Object(d) => {
            let mut is = d.implements;
            let mut ds = d.directives;
            let mut fs = d.fields;
            is.append(&mut implements);
            ds.append(&mut directives);
            fs.append(&mut fields);
            TypeDefinition::Object(
                ObjectTypeDefinition {
                    description: d.description,
                    position: d.position,
                    name: d.name,
                    implements: is,
                    directives: ds,
                    fields: fs,
                },
            )
        },
    }
}

/// One of the three root operations.
pub enum RootOperation {
    Query,
    Mutation,
    Subscription,
}

pub open spec fn root_of(r: RootTypes, op: RootOperation) -> Option<Ident> {
    match op {
        RootOperation::Query => r.query,
        RootOperation::Mutation => r.mutation,
        RootOperation::Subscription => r.subscription,
    }
}

/// `own` if it is set, else the first extension's root type for `op` that is set.
pub open spec fn first_root(own: Option<Ident>, exts: Seq<SchemaExtension>, op: RootOperation) -> Option<
    Ident,
>
    decreases exts.len(),
{
    if exts.len() == 0 {
        own
    } else {
        match first_root(own, exts.drop_last(), op) {
            Some(x) => Some(x),
            None => root_of(exts.last().root_types, op),
        }
    }
}

/// Each root type comes from the schema block if it sets it, else from the first extension
/// that does.
pub open spec fn is_merged_root(orig: SchemaDefinition, exts: Seq<SchemaExtension>, r: RootTypes) -> bool {
    &&& r.query == first_root(orig.root_types.query, exts, RootOperation::Query)
    &&& r.mutation == first_root(orig.root_types.mutation, exts, RootOperation::Mutation)
    &&& r.subscription == first_root(
        orig.root_types.subscription,
        exts,
        RootOperation::Subscription,
    )
}

/// Folds the schema block's extensions into its root types; returns its description too.
pub fn merge_root_types(original: SchemaDefinition, extensions: Vec<SchemaExtension>) -> (r: (
    Option<Node<String>>,
    Node<RootTypes>,
))
    ensures
        r.0 == original.description,
        r.1.position == original.position,
        is_merged_root(original, extensions@, r.1.value),
{
    let ghost exts = extensions@;
    let ghost o = original;
    let n = extensions.len();
    let SchemaDefinition { description, position, directives: _, root_types } = original;
    let RootTypes { mut query, mut mutation, mut subscription } = root_types;
    let mut rest = extensions;
    let mut i: usize = 0;
    assert(exts.skip(0) =~= exts);
    assert(exts.take(0) =~= Seq::<SchemaExtension>::empty());
    while rest.len() > 0
        invariant
            n == exts.len(),
            i + rest@.len() == n,
            rest@ == exts.skip(i as int),
            query == first_root(o.root_types.query, exts.take(i as int), RootOperation::Query),
            mutation == first_root(
                o.root_types.mutation,
                exts.take(i as int),
                RootOperation::Mutation,
            ),
            subscription == first_root(
                o.root_types.subscription,
                exts.take(i as int),
                RootOperation::Subscription,
            ),
        decreases rest@.len(),
    {
        let ext = rest.remove(0);
        assert(ext == exts[i as int]);
        assert(rest@ =~= exts.skip(i + 1));
        assert(exts.take(i + 1).drop_last() =~= exts.take(i as int));
        assert(exts.take(i + 1).last() == ext);
        let SchemaExtension { position: _, directives: _, root_types: ext_roots } = ext;
        let RootTypes { query: q, mutation: m, subscription: s } = ext_roots;
        if query.is_none() {
            query = q;
        }
        if mutation.is_none() {
            mutation = m;
        }
        if subscription.is_none() {
            subscription = s;
        }
        i = i + 1;
    }
    assert(exts.take(i as int) =~= exts);
    (description, Node { value: RootTypes { query, mutation, subscription }, position })
}

/// The schema holds the merged types and the directives of the groups, in the groups'
/// order, and the description and root types of the schema block.
pub open spec fn schema_built_from(
    s: Schema,
    sg: Seq<Group<SchemaDefinition, SchemaExtension>>,
    tg: Seq<Group<TypeDefinition, TypeExtension>>,
    dg: Seq<Group<DirectiveDefinition, DirectiveDefinition>>,
) -> bool {
    &&& s.wf()
    &&& s.types().len() == tg.len()
    &&& forall|i: int|
        0 <= i < tg.len() ==> {
            &&& (#[trigger] s.types()[i]).0 == tg[i].1->0.spec_name().value@
            &&& s.types()[i].1.position == tg[i].1->0.spec_position()
            &&& is_merged_type(tg[i].1->0, tg[i].2, s.types()[i].1.value)
        }
    &&& s.directives().len() == dg.len()
    &&& forall|i: int|
        0 <= i < dg.len() ==> #[trigger] s.directives()[i] == (
        dg[i].1->0.name.value@,
        dg[i].1->0,
    )
    &&& root_built_from(s, sg)
}

/// The schema's description and root types come from the schema block, its root types
/// merged with its extensions; all unset, at the start of the first file, when there is
/// no schema block.
pub open spec fn root_built_from(s: Schema, sg: Seq<Group<SchemaDefinition, SchemaExtension>>) -> bool {
    if sg.len() == 0 {
        &&& s.spec_description() is None
        &&& s.spec_root_types().value.query is None
        &&& s.spec_root_types().value.mutation is None
        &&& s.spec_root_types().value.subscription is None
        &&& s.spec_root_types().position == (Pos { file: 0, line: 0, column: 0 })
    } else {
        &&& s.spec_description() == sg[0].1->0.description
        &&& s.spec_root_types().position == sg[0].1->0.position
        &&& is_merged_root(sg[0].1->0, sg[0].2, s.spec_root_types().value)
    }
}

/// The groups that `set_original`/`add_extension` have left, pairs seen as groups.
pub open spec fn as_groups<O: HasPos, E>(v: Seq<(O, Vec<E>)>) -> Seq<Group<O, E>> {
    v.map_values(|p: (O, Vec<E>)| (p.0.name_view(), Some(p.0), p.1@))
}

pub open spec fn names_unique<O: HasPos, E>(v: Seq<(O, Vec<E>)>) -> bool {
    forall|i: int, j: int| 0 <= i < j < v.len() ==> v[i].0.name_view() != v[j].0.name_view()
}

/// Builds the schema from each name's original and extensions.
pub fn assemble_schema(
    schema_groups: Vec<(SchemaDefinition, Vec<SchemaExtension>)>,
    type_groups: Vec<(TypeDefinition, Vec<TypeExtension>)>,
    directive_groups: Vec<(DirectiveDefinition, Vec<DirectiveDefinition>)>,
) -> (r: Schema)
    requires
        schema_groups@.len() <= 1,
        names_unique(type_groups@),
        names_unique(directive_groups@),
    ensures
        schema_built_from(
            r,
            as_groups(schema_groups@),
            as_groups(type_groups@),
            as_groups(directive_groups@),
        ),
{
    let ghost sg = as_groups(schema_groups@);
    let ghost tg = as_groups(type_groups@);
    let ghost dg = as_groups(directive_groups@);
    let mut schema_groups = schema_groups;
    let mut schema = if schema_groups.len() == 0 {
        Schema::new(
            None,
            Node {
                value: RootTypes { query: None, mutation: None, subscription: None },
                position: Pos::new(0, 0, 0),
            },
        )
    } else {
        let (original, extensions) = schema_groups.remove(0);
        let (description, root_types) = merge_root_types(original, extensions);
        Schema::new(description, root_types)
    };
    let n = type_groups.len();
    let mut rest = type_groups;
    let mut i: usize = 0;
    assert(rest@.skip(0) =~= rest@);
    while rest.len() > 0
        invariant
            n == tg.len(),
            i + rest@.len() == n,
            rest@ == type_groups@.skip(i as int),
            names_unique(type_groups@),
            tg == as_groups(type_groups@),
            schema.wf(),
            schema.types().len() == i,
            forall|t: int|
                0 <= t < i ==> {
                    &&& (#[trigger] schema.types()[t]).0 == tg[t].1->0.spec_name().value@
                    &&& schema.types()[t].1.position == tg[t].1->0.spec_position()
                    &&& is_merged_type(tg[t].1->0, tg[t].2, schema.types()[t].1.value)
                },
            schema.directives() == Seq::<(Seq<char>, DirectiveDefinition)>::empty(),
            root_built_from(schema, sg),
        decreases rest@.len(),
    {
        let (original, extensions) = rest.remove(0);
        assert(rest@ =~= type_groups@.skip(i + 1));
        assert(type_groups@[i as int] == (original, extensions));
        assert(tg[i as int] == (original.name_view(), Some(original), extensions@));
        let ghost k = original.spec_name().value@;
        let ghost before = schema.types();
        proof {
            lemma_index_from(before, k, 0);
            assert forall|j: int| 0 <= j < before.len() implies before[j].0 != k by {
                assert(before[j].0 == tg[j].1->0.spec_name().value@);
                assert(tg[j].0 == type_groups@[j].0.name_view());
                assert(tg[i as int].0 == type_groups@[i as int].0.name_view());
            }
        }
        let position = original.position();
        let merged = merge_type_definition(original, extensions);
        schema.insert_type(Node { value: merged, position });
        assert(schema.types() == before.push((k, Node { value: merged, position })));
        i = i + 1;
    }
    let n = directive_groups.len();
    let mut rest = directive_groups;
    let mut i: usize = 0;
    assert(rest@.skip(0) =~= rest@);
    while rest.len() > 0
        invariant
            n == dg.len(),
            i + rest@.len() == n,
            rest@ == directive_groups@.skip(i as int),
            names_unique(directive_groups@),
            dg == as_groups(directive_groups@),
            schema.wf(),
            schema.directives().len() == i,
            forall|t: int|
                0 <= t < i ==> #[trigger] schema.directives()[t] == (
                dg[t].1->0.name.value@,
                dg[t].1->0,
            ),
            schema.types().len() == tg.len(),
            forall|t: int|
                0 <= t < tg.len() ==> {
                    &&& (#[trigger] schema.types()[t]).0 == tg[t].1->0.spec_name().value@
                    &&& schema.types()[t].1.position == tg[t].1->0.spec_position()
                    &&& is_merged_type(tg[t].1->0, tg[t].2, schema.types()[t].1.value)
                },
            root_built_from(schema, sg),
        decreases rest@.len(),
    {
        let (original, _extensions) = rest.remove(0);
        assert(rest@ =~= directive_groups@.skip(i + 1));
        assert(directive_groups@[i as int] == (original, _extensions));
        assert(dg[i as int] == (original.name_view(), Some(original), _extensions@));
        let ghost k = original.name.value@;
        let ghost before = schema.directives();
        proof {
            lemma_index_from(before, k, 0);
            assert forall|j: int| 0 <= j < before.len() implies before[j].0 != k by {
                assert(dg[j].0 == directive_groups@[j].0.name_view());
                assert(dg[i as int].0 == directive_groups@[i as int].0.name_view());
            }
        }
        schema.insert_directive(original);
        assert(schema.directives() == before.push((k, original)));
        i = i + 1;
    }
    schema
}

/// The groups of the schema block, of the types and of the directives.
pub type Collected = (
    Seq<Group<SchemaDefinition, SchemaExtension>>,
    Seq<Group<TypeDefinition, TypeExtension>>,
    Seq<Group<DirectiveDefinition, DirectiveDefinition>>,
);

/// Files one item of a document in its category.
pub open spec fn collect_step(c: Collected, item: TypeSystemDefinitionOrExtension) -> Result<
    Collected,
    ExtensionErrorView,
> {
    match item {
        TypeSystemDefinitionOrExtension::SchemaDefinition(d) => match set_original_model(
            c.0,
            d,
            "schema"@,
        ) {
            Ok(g) => Ok((g, c.1, c.2)),
            Err(e) => Err(e),
        },
        TypeSystemDefinitionOrExtension::TypeDefinition(d) => match set_original_model(
            c.1,
            d,
            "type"@,
        ) {
            Ok(g) => Ok((c.0, g, c.2)),
            Err(e) => Err(e),
        },
        TypeSystemDefinitionOrExtension::DirectiveDefinition(d) => match set_original_model(
            c.2,
            d,
            "directive"@,
        ) {
            Ok(g) => Ok((c.0, c.1, g)),
            Err(e) => Err(e),
        },
        TypeSystemDefinitionOrExtension::SchemaExtension(e) => Ok(
            (add_extension_model(c.0, e), c.1, c.2),
        ),
        TypeSystemDefinitionOrExtension::TypeExtension(e) => Ok(
            (c.0, add_extension_model(c.1, e), c.2),
        ),
    }
}

/// Files every item of a document in order, stopping at the first duplicate original.
pub open spec fn collect(doc: Seq<TypeSystemDefinitionOrExtension>) -> Result<
    Collected,
    ExtensionErrorView,
>
    decreases doc.len(),
{
    if doc.len() == 0 {
        Ok((Seq::empty(), Seq::empty(), Seq::empty()))
    } else {
        match collect(doc.drop_last()) {
            Ok(c) => collect_step(c, doc.last()),
            Err(e) => Err(e),
        }
    }
}

proof fn lemma_collect_err(doc: Seq<TypeSystemDefinitionOrExtension>, i: int, j: int)
    requires
        0 <= i <= j <= doc.len(),
        collect(doc.take(i)) is Err,
    ensures
        collect(doc.take(j)) == collect(doc.take(i)),
    decreases j - i,
{
    if j > i {
        lemma_collect_err(doc, i, j - 1);
        assert(doc.take(j).drop_last() =~= doc.take(j - 1));
    }
}

/// The outcome of resolving the groups `c`: the first category (schema block, types,
/// directives) with a name that is extended but never declared fails; otherwise the
/// schema is built from the groups.
pub open spec fn resolved_from(c: Collected, r: Result<Schema, ExtensionError>) -> bool {
    if first_orphan(c.0) < c.0.len() {
        r is Err && r->Err_0@ == orphan_error(c.0, "schema"@)
    } else if first_orphan(c.1) < c.1.len() {
        r is Err && r->Err_0@ == orphan_error(c.1, "type"@)
    } else if first_orphan(c.2) < c.2.len() {
        r is Err && r->Err_0@ == orphan_error(c.2, "directive"@)
    } else {
        r is Ok && schema_built_from(r->Ok_0, c.0, c.1, c.2)
    }
}

proof fn lemma_pairs_are_groups<O: HasPos, E>(g: Seq<Group<O, E>>, v: Seq<(O, Vec<E>)>)
    requires
        groups_wf(g),
        v.len() == g.len(),
        forall|i: int| 0 <= i < v.len() ==> Some(#[trigger] v[i].0) == g[i].1 && v[i].1@ == g[i].2,
    ensures
        as_groups(v) == g,
        names_unique(v),
{
    assert(as_groups(v) =~= g);
}

/// Groups a document's declarations by category and name, checks that each name has
/// exactly one original, and builds the schema with the extensions folded in.
pub fn resolve_extensions(document: Vec<TypeSystemDefinitionOrExtension>) -> (r: Result<
    Schema,
    ExtensionError,
>)
    ensures
        match collect(document@) {
            Err(e) => r is Err && r->Err_0@ == e,
            Ok(c) => resolved_from(c, r),
        },
{
    let ghost doc = document@;
    let mut schemas: ExtensionList<SchemaDefinition, SchemaExtension> = ExtensionList::new(
        "schema",
    );
    let mut types: ExtensionList<TypeDefinition, TypeExtension> = ExtensionList::new("type");
    let mut directives: ExtensionList<DirectiveDefinition, DirectiveDefinition> =
        ExtensionList::new("directive");
    let n = document.len();
    let mut rest = document;
    let mut i: usize = 0;
    assert(doc.skip(0) =~= doc);
    assert(doc.take(0) =~= Seq::<TypeSystemDefinitionOrExtension>::empty());
    while rest.len() > 0
        invariant
            n == doc.len(),
            doc == document@,
            i + rest@.len() == n,
            rest@ == doc.skip(i as int),
            collect(doc.take(i as int)) == Ok::<Collected, ExtensionErrorView>(
                (schemas@, types@, directives@),
            ),
            schemas.wf(),
            types.wf(),
            directives.wf(),
            schemas.elem_name() == "schema"@,
            types.elem_name() == "type"@,
            directives.elem_name() == "directive"@,
        decreases rest@.len(),
    {
        let item = rest.remove(0);
        assert(item == doc[i as int]);
        assert(rest@ =~= doc.skip(i + 1));
        assert(doc.take(i + 1).drop_last() =~= doc.take(i as int));
        assert(doc.take(i + 1).last() == item);
        let ghost c0: Collected = (schemas@, types@, directives@);
        let step = match item {
            TypeSystemDefinitionOrExtension::SchemaDefinition(d) => {
                let r = schemas.set_original(d);
                assert(r is Err ==> collect_step(c0, item) == Err::<Collected, ExtensionErrorView>(
                    r->Err_0@,
                ));
                r
            },
            TypeSystemDefinitionOrExtension::TypeDefinition(d) => {
                let r = types.set_original(d);
                assert(r is Err ==> collect_step(c0, item) == Err::<Collected, ExtensionErrorView>(
                    r->Err_0@,
                ));
                r
            },
            TypeSystemDefinitionOrExtension::DirectiveDefinition(d) => {
                let r = directives.set_original(d);
                assert(r is Err ==> collect_step(c0, item) == Err::<Collected, ExtensionErrorView>(
                    r->Err_0@,
                ));
                r
            },
            TypeSystemDefinitionOrExtension::SchemaExtension(e) => {
                schemas.add_extension(e);
                Ok(())
            },
            TypeSystemDefinitionOrExtension::TypeExtension(e) => {
                types.add_extension(e);
                Ok(())
            },
        };
        match step {
            Err(e) => {
                assert(collect(doc.take(i + 1)) == Err::<Collected, ExtensionErrorView>(e@));
                proof {
                    lemma_collect_err(doc, i + 1, doc.len() as int);
                    assert(doc.take(doc.len() as int) =~= doc);
                }
                return Err(e);
            },
            Ok(()) => {},
        }
        i = i + 1;
    }
    assert(doc.take(i as int) =~= doc);
    let ghost c: Collected = (schemas@, types@, directives@);
    proof {
        lemma_first_orphan(c.0);
        lemma_first_orphan(c.1);
        lemma_first_orphan(c.2);
    }
    let schema_groups = match schemas.into_original_and_extensions() {
        Ok(v) => v,
        Err(e) => {
            return Err(e);
        },
    };
    let type_groups = match types.into_original_and_extensions() {
        Ok(v) => v,
        Err(e) => {
            return Err(e);
        },
    };
    let directive_groups = match directives.into_original_and_extensions() {
        Ok(v) => v,
        Err(e) => {
            return Err(e);
        },
    };
    proof {
        lemma_pairs_are_groups(c.0, schema_groups@);
        lemma_pairs_are_groups(c.1, type_groups@);
        lemma_pairs_are_groups(c.2, directive_groups@);
        if schema_groups@.len() > 1 {
            assert(c.0[0].0 == None::<Seq<char>>);
            assert(c.0[1].0 == None::<Seq<char>>);
        }
    }
    Ok(assemble_schema(schema_groups, type_groups, directive_groups))
}

} // verus!
