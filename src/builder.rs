use vstd::prelude::*;

use crate::ast::{
    Argument, Directive, FieldDefinition, Ident, InputValueDefinition, Node, ObjectTypeDefinition,
    ScalarTypeDefinition, TypeDefinition,
};
use crate::base::Pos;

verus! {

/// The grammar rules that tag the nodes of a parse tree.
#[derive(Clone, Copy, Debug, PartialEq, Eq, Structural)]
pub enum Rule {
    TypeDefinition,
    ScalarTypeDefinition,
    ObjectTypeDefinition,
    Description,
    KeywordScalar,
    KeywordType,
    KeywordImplements,
    Name,
    NamedType,
    ImplementsInterfaces,
    Directives,
    Directive,
    Arguments,
    Argument,
    Value,
    FieldsDefinition,
    FieldDefinition,
    ArgumentsDefinition,
    InputValueDefinition,
    Type,
    DefaultValue,
}

/// A node of a parse tree: its rule, the text it spans, where it starts, and its children
/// in source order.
pub struct ParseNode {
    pub rule: Rule,
    pub text: String,
    pub position: Pos,
    pub children: Vec<ParseNode>,
}

/// An expected child: its rule, and whether it must be present.
pub type Part = (Rule, bool);

pub open spec fn rules_of(cs: Seq<ParseNode>) -> Seq<Rule> {
    cs.map_values(|c: ParseNode| c.rule)
}

/// Matches children `ci..` against the expected parts `pi..`: a child fills a part when
/// their rules agree, an optional part may stay empty, and no child may be left over.
/// Gives, for each part, the index of the child that fills it.
pub open spec fn slots_from(rules: Seq<Rule>, ci: int, pat: Seq<Part>, pi: int) -> Option<
    Seq<Option<int>>,
>
    decreases pat.len() - pi,
{
    if pi < 0 || pi >= pat.len() {
        if ci == rules.len() {
            Some(Seq::empty())
        } else {
            None
        }
    } else if 0 <= ci < rules.len() && rules[ci] == pat[pi].0 {
        match slots_from(rules, ci + 1, pat, pi + 1) {
            Some(s) => Some(seq![Some(ci)] + s),
            None => None,
        }
    } else if !pat[pi].1 {
        match slots_from(rules, ci, pat, pi + 1) {
            Some(s) => Some(seq![None] + s),
            None => None,
        }
    } else {
        None
    }
}

/// The children of `n` have the shape `pat`.
pub open spec fn has_shape(n: ParseNode, pat: Seq<Part>) -> bool {
    slots_from(rules_of(n.children@), 0, pat, 0) is Some
}

/// The index of the child that fills part `p`.
pub open spec fn slot(n: ParseNode, pat: Seq<Part>, p: int) -> Option<int> {
    slots_from(rules_of(n.children@), 0, pat, 0)->Some_0[p]
}

/// The child that fills part `p`.
pub open spec fn part(n: ParseNode, pat: Seq<Part>, p: int) -> ParseNode {
    n.children@[slot(n, pat, p)->Some_0]
}

pub open spec fn opt_int(o: Option<usize>) -> Option<int> {
    match o {
        Some(i) => Some(i as int),
        None => None,
    }
}

proof fn lemma_slots_from(rules: Seq<Rule>, ci: int, pat: Seq<Part>, pi: int)
    requires
        0 <= ci <= rules.len(),
        0 <= pi <= pat.len(),
        slots_from(rules, ci, pat, pi) is Some,
    ensures
        ({
            let s = slots_from(rules, ci, pat, pi)->Some_0;
            &&& s.len() == pat.len() - pi
            &&& forall|p: int|
                0 <= p < s.len() ==> match #[trigger] s[p] {
                    Some(c) => ci <= c < rules.len() && rules[c] == pat[pi + p].0,
                    None => !pat[pi + p].1,
                }
        }),
    decreases pat.len() - pi,
{
    if pi < pat.len() {
        let s = slots_from(rules, ci, pat, pi)->Some_0;
        if ci < rules.len() && rules[ci] == pat[pi].0 {
            lemma_slots_from(rules, ci + 1, pat, pi + 1);
            let t = slots_from(rules, ci + 1, pat, pi + 1)->Some_0;
            assert forall|p: int| 0 < p < s.len() implies s[p] == t[p - 1] by {}
        } else {
            lemma_slots_from(rules, ci, pat, pi + 1);
            let t = slots_from(rules, ci, pat, pi + 1)->Some_0;
            assert forall|p: int| 0 < p < s.len() implies s[p] == t[p - 1] by {}
        }
    }
}

/// What is known of the slots of a node of shape `pat`.
pub proof fn lemma_shape(n: ParseNode, pat: Seq<Part>)
    requires
        has_shape(n, pat),
    ensures
        forall|p: int|
            0 <= p < pat.len() ==> match #[trigger] slot(n, pat, p) {
                Some(c) => 0 <= c < n.children@.len() && n.children@[c].rule == pat[p].0,
                None => !pat[p].1,
            },
{
    lemma_slots_from(rules_of(n.children@), 0, pat, 0);
}

/// Finds the child that fills each expected part, in order.
pub fn parts(n: &ParseNode, pat: &Vec<Part>) -> (r: Vec<Option<usize>>)
    requires
        has_shape(*n, pat@),
    ensures
        r@.len() == pat@.len(),
        forall|p: int| 0 <= p < pat@.len() ==> opt_int(#[trigger] r@[p]) == slot(*n, pat@, p),
{
    let ghost rules = rules_of(n.children@);
    let ghost full = slots_from(rules, 0, pat@, 0)->Some_0;
    let mut r: Vec<Option<usize>> = Vec::new();
    let mut ci: usize = 0;
    let mut pi: usize = 0;
    assert(r@.map_values(|o: Option<usize>| opt_int(o)) + full =~= full);
    proof {
        lemma_slots_from(rules, 0, pat@, 0);
    }
    while pi < pat.len()
        invariant
            pi <= pat@.len(),
            full.len() == pat@.len(),
            ci <= n.children@.len(),
            rules == rules_of(n.children@),
            slots_from(rules, ci as int, pat@, pi as int) is Some,
            full == r@.map_values(|o: Option<usize>| opt_int(o)) + slots_from(
                rules,
                ci as int,
                pat@,
                pi as int,
            )->Some_0,
        decreases pat@.len() - pi,
    {
        let ghost rest = slots_from(rules, ci as int, pat@, pi as int)->Some_0;
        let ghost before = r@.map_values(|o: Option<usize>| opt_int(o));
        let (rule, _required) = pat[pi];
        if ci < n.children.len() && n.children[ci].rule == rule {
            assert(rules[ci as int] == rule);
            let ghost next = slots_from(rules, ci + 1, pat@, pi + 1)->Some_0;
            assert(rest == seq![Some(ci as int)] + next);
            r.push(Some(ci));
            assert(r@.map_values(|o: Option<usize>| opt_int(o)) =~= before.push(Some(ci as int)));
            assert(full =~= r@.map_values(|o: Option<usize>| opt_int(o)) + next);
            ci = ci + 1;
        } else {
            assert(ci < rules.len() ==> rules[ci as int] == n.children@[ci as int].rule);
            let ghost next = slots_from(rules, ci as int, pat@, pi + 1)->Some_0;
            assert(rest == seq![None::<int>] + next);
            r.push(None);
            assert(r@.map_values(|o: Option<usize>| opt_int(o)) =~= before.push(None::<int>));
            assert(full =~= r@.map_values(|o: Option<usize>| opt_int(o)) + next);
        }
        pi = pi + 1;
    }
    assert(full =~= r@.map_values(|o: Option<usize>| opt_int(o)));
    assert forall|p: int| 0 <= p < pat@.len() implies opt_int(#[trigger] r@[p]) == slot(
        *n,
        pat@,
        p,
    ) by {
        assert(full[p] == r@.map_values(|o: Option<usize>| opt_int(o))[p]);
    }
    r
}

pub open spec fn argument_pat() -> Seq<Part> {
    seq![(Rule::Name, true), (Rule::Value, true)]
}

pub open spec fn directive_pat() -> Seq<Part> {
    seq![(Rule::Name, true), (Rule::Arguments, false)]
}

pub open spec fn input_value_pat() -> Seq<Part> {
    seq![
        (Rule::Description, false),
        (Rule::Name, true),
        (Rule::Type, true),
        (Rule::DefaultValue, false),
        (Rule::Directives, false),
    ]
}

pub open spec fn field_pat() -> Seq<Part> {
    seq![
        (Rule::Description, false),
        (Rule::Name, true),
        (Rule::ArgumentsDefinition, false),
        (Rule::Type, true),
        (Rule::Directives, false),
    ]
}

pub open spec fn scalar_pat() -> Seq<Part> {
    seq![
        (Rule::Description, false),
        (Rule::KeywordScalar, true),
        (Rule::Name, true),
        (Rule::Directives, false),
    ]
}

pub open spec fn object_pat() -> Seq<Part> {
    seq![
        (Rule::Description, false),
        (Rule::KeywordType, true),
        (Rule::Name, true),
        (Rule::ImplementsInterfaces, false),
        (Rule::Directives, false),
        (Rule::FieldsDefinition, false),
    ]
}

// Shapes that the grammar guarantees.
pub open spec fn wf_argument(n: ParseNode) -> bool {
    n.rule == Rule::Argument && has_shape(n, argument_pat())
}

pub open spec fn wf_arguments(n: ParseNode) -> bool {
    forall|i: int| 0 <= i < n.children@.len() ==> wf_argument(#[trigger] n.children@[i])
}

pub open spec fn wf_directive(n: ParseNode) -> bool {
    &&& n.rule == Rule::Directive
    &&& has_shape(n, directive_pat())
    &&& slot(n, directive_pat(), 1) is Some ==> wf_arguments(
        n.children@[slot(n, directive_pat(), 1)->Some_0],
    )
}

pub open spec fn wf_directives(n: ParseNode) -> bool {
    forall|i: int| 0 <= i < n.children@.len() ==> wf_directive(#[trigger] n.children@[i])
}

pub open spec fn wf_opt_directives(n: ParseNode, s: Option<int>) -> bool {
    s is Some ==> wf_directives(n.children@[s->Some_0])
}

pub open spec fn wf_input_value(n: ParseNode) -> bool {
    &&& n.rule == Rule::InputValueDefinition
    &&& has_shape(n, input_value_pat())
    &&& slot(n, input_value_pat(), 3) is Some ==> n.children@[slot(
        n,
        input_value_pat(),
        3,
    )->Some_0].children@.len() == 1
    &&& wf_opt_directives(n, slot(n, input_value_pat(), 4))
}

pub open spec fn wf_arguments_definition(n: ParseNode) -> bool {
    forall|i: int| 0 <= i < n.children@.len() ==> wf_input_value(#[trigger] n.children@[i])
}

pub open spec fn wf_field(n: ParseNode) -> bool {
    &&& n.rule == Rule::FieldDefinition
    &&& has_shape(n, field_pat())
    &&& slot(n, field_pat(), 2) is Some ==> wf_arguments_definition(
        n.children@[slot(n, field_pat(), 2)->Some_0],
    )
    &&& wf_opt_directives(n, slot(n, field_pat(), 4))
}

pub open spec fn wf_fields(n: ParseNode) -> bool {
    forall|i: int| 0 <= i < n.children@.len() ==> wf_field(#[trigger] n.children@[i])
}

pub open spec fn wf_implements(n: ParseNode) -> bool {
    &&& n.children@.len() >= 1
    &&& n.children@[0].rule == Rule::KeywordImplements
    &&& forall|i: int| 1 <= i < n.children@.len() ==> (#[trigger] n.children@[i]).rule == Rule::NamedType
}

pub open spec fn wf_scalar(n: ParseNode) -> bool {
    &&& has_shape(n, scalar_pat())
    &&& wf_opt_directives(n, slot(n, scalar_pat(), 3))
}

pub open spec fn wf_object(n: ParseNode) -> bool {
    &&& has_shape(n, object_pat())
    &&& slot(n, object_pat(), 3) is Some ==> wf_implements(
        n.children@[slot(n, object_pat(), 3)->Some_0],
    )
    &&& wf_opt_directives(n, slot(n, object_pat(), 4))
    &&& slot(n, object_pat(), 5) is Some ==> wf_fields(n.children@[slot(n, object_pat(), 5)->Some_0])
}

pub open spec fn wf_type_definition(n: ParseNode) -> bool {
    &&& n.children@.len() == 1
    &&& match n.children@[0].rule {
        Rule::ScalarTypeDefinition => wf_scalar(n.children@[0]),
        Rule::ObjectTypeDefinition => wf_object(n.children@[0]),
        _ => false,
    }
}

// What each builder makes of a node.
pub open spec fn text_of(r: Node<String>, n: ParseNode) -> bool {
    r.value@ == n.text@ && r.position == n.position
}

pub open spec fn opt_text_of(r: Option<Node<String>>, n: ParseNode, s: Option<int>) -> bool {
    match s {
        None => r is None,
        Some(j) => r is Some && text_of(r->Some_0, n.children@[j]),
    }
}

pub open spec fn argument_built(a: Argument, n: ParseNode) -> bool {
    text_of(a.name, part(n, argument_pat(), 0)) && text_of(a.value, part(n, argument_pat(), 1))
}

pub open spec fn arguments_built(s: Seq<Argument>, n: ParseNode) -> bool {
    &&& s.len() == n.children@.len()
    &&& forall|i: int| 0 <= i < s.len() ==> argument_built(#[trigger] s[i], n.children@[i])
}

pub open spec fn directive_built(d: Directive, n: ParseNode) -> bool {
    &&& d.position == n.position
    &&& text_of(d.name, part(n, directive_pat(), 0))
    &&& match slot(n, directive_pat(), 1) {
        None => d.arguments@.len() == 0,
        Some(j) => arguments_built(d.arguments@, n.children@[j]),
    }
}

pub open spec fn directives_built(s: Seq<Directive>, n: ParseNode) -> bool {
    &&& s.len() == n.children@.len()
    &&& forall|i: int| 0 <= i < s.len() ==> directive_built(#[trigger] s[i], n.children@[i])
}

pub open spec fn opt_directives_built(s: Seq<Directive>, n: ParseNode, sl: Option<int>) -> bool {
    match sl {
        None => s.len() == 0,
        Some(j) => directives_built(s, n.children@[j]),
    }
}

pub open spec fn input_value_built(v: InputValueDefinition, n: ParseNode) -> bool {
    &&& opt_text_of(v.description, n, slot(n, input_value_pat(), 0))
    &&& text_of(v.name, part(n, input_value_pat(), 1))
    &&& text_of(v.ty, part(n, input_value_pat(), 2))
    &&& match slot(n, input_value_pat(), 3) {
        None => v.default_value is None,
        Some(j) => v.default_value is Some && text_of(
            v.default_value->Some_0,
            n.children@[j].children@[0],
        ),
    }
    &&& opt_directives_built(v.directives@, n, slot(n, input_value_pat(), 4))
}

pub open spec fn input_values_built(s: Seq<InputValueDefinition>, n: ParseNode) -> bool {
    &&& s.len() == n.children@.len()
    &&& forall|i: int| 0 <= i < s.len() ==> input_value_built(#[trigger] s[i], n.children@[i])
}

pub open spec fn field_built(f: FieldDefinition, n: ParseNode) -> bool {
    &&& opt_text_of(f.description, n, slot(n, field_pat(), 0))
    &&& text_of(f.name, part(n, field_pat(), 1))
    &&& match slot(n, field_pat(), 2) {
        None => f.arguments@.len() == 0,
        Some(j) => input_values_built(f.arguments@, n.children@[j]),
    }
    &&& text_of(f.ty, part(n, field_pat(), 3))
    &&& opt_directives_built(f.directives@, n, slot(n, field_pat(), 4))
}

pub open spec fn fields_built(s: Seq<FieldDefinition>, n: ParseNode) -> bool {
    &&& s.len() == n.children@.len()
    &&& forall|i: int| 0 <= i < s.len() ==> field_built(#[trigger] s[i], n.children@[i])
}

pub open spec fn implements_built(s: Seq<Ident>, n: ParseNode) -> bool {
    &&& s.len() + 1 == n.children@.len()
    &&& forall|i: int| 0 <= i < s.len() ==> text_of(#[trigger] s[i], n.children@[i + 1])
}

pub open spec fn scalar_built(d: ScalarTypeDefinition, n: ParseNode) -> bool {
    &&& d.position == n.position
    &&& opt_text_of(d.description, n, slot(n, scalar_pat(), 0))
    &&& text_of(d.name, part(n, scalar_pat(), 2))
    &&& opt_directives_built(d.directives@, n, slot(n, scalar_pat(), 3))
}

pub open spec fn object_built(d: ObjectTypeDefinition, n: ParseNode) -> bool {
    &&& d.position == n.position
    &&& opt_text_of(d.description, n, slot(n, object_pat(), 0))
    &&& text_of(d.name, part(n, object_pat(), 2))
    &&& match slot(n, object_pat(), 3) {
        None => d.implements@.len() == 0,
        Some(j) => implements_built(d.implements@, n.children@[j]),
    }
    &&& opt_directives_built(d.directives@, n, slot(n, object_pat(), 4))
    &&& match slot(n, object_pat(), 5) {
        None => d.fields@.len() == 0,
        Some(j) => fields_built(d.fields@, n.children@[j]),
    }
}

pub open spec fn type_definition_built(t: TypeDefinition, n: ParseNode) -> bool {
    match n.children@[0].rule {
        Rule::ScalarTypeDefinition => t is Scalar && scalar_built(t->Scalar_0, n.children@[0]),
        Rule::ObjectTypeDefinition => t is Object && object_built(t->Object_0, n.children@[0]),
        _ => false,
    }
}

/// The node's text and position.
pub fn build_text(n: &ParseNode) -> (r: Node<String>)
    ensures
        text_of(r, *n),
{
    Node { value: n.text.clone(), position: n.position }
}

/// The text of an optional part.
fn build_opt_text(n: &ParseNode, s: Option<usize>) -> (r: Option<Node<String>>)
    requires
        s is Some ==> s->Some_0 < n.children@.len(),
    ensures
        opt_text_of(r, *n, opt_int(s)),
{
    match s {
        Some(j) => Some(build_text(&n.children[j])),
        None => None,
    }
}

fn build_argument(n: &ParseNode) -> (r: Argument)
    requires
        wf_argument(*n),
    ensures
        argument_built(r, *n),
{
    let pat = vec![(Rule::Name, true), (Rule::Value, true)];
    assert(pat@ =~= argument_pat());
    proof {
        lemma_shape(*n, pat@);
    }
    let s = parts(n, &pat);
    assert(opt_int(s@[0]) == slot(*n, pat@, 0));
    assert(opt_int(s@[1]) == slot(*n, pat@, 1));
    let name = build_text(&n.children[s[0].unwrap()]);
    let value = build_text(&n.children[s[1].unwrap()]);
    Argument { name, value }
}

fn build_arguments(n: &ParseNode) -> (r: Vec<Argument>)
    requires
        wf_arguments(*n),
    ensures
        arguments_built(r@, *n),
{
    let mut r: Vec<Argument> = Vec::new();
    let mut i: usize = 0;
    while i < n.children.len()
        invariant
            wf_arguments(*n),
            i <= n.children@.len(),
            r@.len() == i,
            forall|t: int| 0 <= t < i ==> argument_built(#[trigger] r@[t], n.children@[t]),
        decreases n.children@.len() - i,
    {
        r.push(build_argument(&n.children[i]));
        i = i + 1;
    }
    r
}

fn build_directive(n: &ParseNode) -> (r: Directive)
    requires
        wf_directive(*n),
    ensures
        directive_built(r, *n),
{
    let pat = vec![(Rule::Name, true), (Rule::Arguments, false)];
    assert(pat@ =~= directive_pat());
    proof {
        lemma_shape(*n, pat@);
    }
    let s = parts(n, &pat);
    assert(opt_int(s@[0]) == slot(*n, pat@, 0));
    assert(opt_int(s@[1]) == slot(*n, pat@, 1));
    let name = build_text(&n.children[s[0].unwrap()]);
    let arguments = match s[1] {
        Some(j) => build_arguments(&n.children[j]),
        None => Vec::new(),
    };
    Directive { position: n.position, name, arguments }
}

/// Builds each directive of a `Directives` node, in order.
pub fn build_directives(n: &ParseNode) -> (r: Vec<Directive>)
    requires
        wf_directives(*n),
    ensures
        directives_built(r@, *n),
{
    let mut r: Vec<Directive> = Vec::new();
    let mut i: usize = 0;
    while i < n.children.len()
        invariant
            wf_directives(*n),
            i <= n.children@.len(),
            r@.len() == i,
            forall|t: int| 0 <= t < i ==> directive_built(#[trigger] r@[t], n.children@[t]),
        decreases n.children@.len() - i,
    {
        r.push(build_directive(&n.children[i]));
        i = i + 1;
    }
    r
}

fn build_opt_directives(n: &ParseNode, s: Option<usize>) -> (r: Vec<Directive>)
    requires
        s is Some ==> s->Some_0 < n.children@.len(),
        wf_opt_directives(*n, opt_int(s)),
    ensures
        opt_directives_built(r@, *n, opt_int(s)),
{
    match s {
        Some(j) => build_directives(&n.children[j]),
        None => Vec::new(),
    }
}

fn build_input_value(n: &ParseNode) -> (r: InputValueDefinition)
    requires
        wf_input_value(*n),
    ensures
        input_value_built(r, *n),
{
    let pat = vec![
        (Rule::Description, false),
        (Rule::Name, true),
        (Rule::Type, true),
        (Rule::DefaultValue, false),
        (Rule::Directives, false),
    ];
    assert(pat@ =~= input_value_pat());
    proof {
        lemma_shape(*n, pat@);
    }
    let s = parts(n, &pat);
    assert(opt_int(s@[0]) == slot(*n, pat@, 0));
    assert(opt_int(s@[1]) == slot(*n, pat@, 1));
    assert(opt_int(s@[2]) == slot(*n, pat@, 2));
    assert(opt_int(s@[3]) == slot(*n, pat@, 3));
    assert(opt_int(s@[4]) == slot(*n, pat@, 4));
    let description = build_opt_text(n, s[0]);
    let name = build_text(&n.children[s[1].unwrap()]);
    let ty = build_text(&n.children[s[2].unwrap()]);
    let default_value = match s[3] {
        Some(j) => Some(build_text(&n.children[j].children[0])),
        None => None,
    };
    let directives = build_opt_directives(n, s[4]);
    InputValueDefinition { description, name, ty, default_value, directives }
}

/// Builds each argument definition of an `ArgumentsDefinition` node, in order.
fn build_arguments_definition(n: &ParseNode) -> (r: Vec<InputValueDefinition>)
    requires
        wf_arguments_definition(*n),
    ensures
        input_values_built(r@, *n),
{
    let mut r: Vec<InputValueDefinition> = Vec::new();
    let mut i: usize = 0;
    while i < n.children.len()
        invariant
            wf_arguments_definition(*n),
            i <= n.children@.len(),
            r@.len() == i,
            forall|t: int| 0 <= t < i ==> input_value_built(#[trigger] r@[t], n.children@[t]),
        decreases n.children@.len() - i,
    {
        r.push(build_input_value(&n.children[i]));
        i = i + 1;
    }
    r
}

fn build_field(n: &ParseNode) -> (r: FieldDefinition)
    requires
        wf_field(*n),
    ensures
        field_built(r, *n),
{
    let pat = vec![
        (Rule::Description, false),
        (Rule::Name, true),
        (Rule::ArgumentsDefinition, false),
        (Rule::Type, true),
        (Rule::Directives, false),
    ];
    assert(pat@ =~= field_pat());
    proof {
        lemma_shape(*n, pat@);
    }
    let s = parts(n, &pat);
    assert(opt_int(s@[0]) == slot(*n, pat@, 0));
    assert(opt_int(s@[1]) == slot(*n, pat@, 1));
    assert(opt_int(s@[2]) == slot(*n, pat@, 2));
    assert(opt_int(s@[3]) == slot(*n, pat@, 3));
    assert(opt_int(s@[4]) == slot(*n, pat@, 4));
    let description = build_opt_text(n, s[0]);
    let name = build_text(&n.children[s[1].unwrap()]);
    let arguments = match s[2] {
        Some(j) => build_arguments_definition(&n.children[j]),
        None => Vec::new(),
    };
    let ty = build_text(&n.children[s[3].unwrap()]);
    let directives = build_opt_directives(n, s[4]);
    FieldDefinition { description, name, arguments, ty, directives }
}

/// Builds each field of a `FieldsDefinition` node, in order.
fn build_fields_definition(n: &ParseNode) -> (r: Vec<FieldDefinition>)
    requires
        wf_fields(*n),
    ensures
        fields_built(r@, *n),
{
    let mut r: Vec<FieldDefinition> = Vec::new();
    let mut i: usize = 0;
    while i < n.children.len()
        invariant
            wf_fields(*n),
            i <= n.children@.len(),
            r@.len() == i,
            forall|t: int| 0 <= t < i ==> field_built(#[trigger] r@[t], n.children@[t]),
        decreases n.children@.len() - i,
    {
        r.push(build_field(&n.children[i]));
        i = i + 1;
    }
    r
}

/// The interface names after the `implements` keyword, in order.
fn build_implements_interfaces(n: &ParseNode) -> (r: Vec<Ident>)
    requires
        wf_implements(*n),
    ensures
        implements_built(r@, *n),
{
    let mut r: Vec<Ident> = Vec::new();
    let mut i: usize = 1;
    while i < n.children.len()
        invariant
            1 <= i <= n.children@.len(),
            r@.len() + 1 == i,
            forall|t: int| 0 <= t < r@.len() ==> text_of(#[trigger] r@[t], n.children@[t + 1]),
        decreases n.children@.len() - i,
    {
        r.push(build_text(&n.children[i]));
        i = i + 1;
    }
    r
}

fn build_scalar_type_definition(n: &ParseNode) -> (r: ScalarTypeDefinition)
    requires
        wf_scalar(*n),
    ensures
        scalar_built(r, *n),
{
    let pat = vec![
        (Rule::Description, false),
        (Rule::KeywordScalar, true),
        (Rule::Name, true),
        (Rule::Directives, false),
    ];
    assert(pat@ =~= scalar_pat());
    proof {
        lemma_shape(*n, pat@);
    }
    let s = parts(n, &pat);
    assert(opt_int(s@[0]) == slot(*n, pat@, 0));
    assert(opt_int(s@[2]) == slot(*n, pat@, 2));
    assert(opt_int(s@[3]) == slot(*n, pat@, 3));
    let description = build_opt_text(n, s[0]);
    let name = build_text(&n.children[s[2].unwrap()]);
    let directives = build_opt_directives(n, s[3]);
    ScalarTypeDefinition { description, position: n.position, name, directives }
}

fn build_object_type_definition(n: &ParseNode) -> (r: ObjectTypeDefinition)
    requires
        wf_object(*n),
    ensures
        object_built(r, *n),
{
    let pat = vec![
        (Rule::Description, false),
        (Rule::KeywordType, true),
        (Rule::Name, true),
        (Rule::ImplementsInterfaces, false),
        (Rule::Directives, false),
        (Rule::FieldsDefinition, false),
    ];
    assert(pat@ =~= object_pat());
    proof {
        lemma_shape(*n, pat@);
    }
    let s = parts(n, &pat);
    assert(opt_int(s@[0]) == slot(*n, pat@, 0));
    assert(opt_int(s@[2]) == slot(*n, pat@, 2));
    assert(opt_int(s@[3]) == slot(*n, pat@, 3));
    assert(opt_int(s@[4]) == slot(*n, pat@, 4));
    assert(opt_int(s@[5]) == slot(*n, pat@, 5));
    let description = build_opt_text(n, s[0]);
    let name = build_text(&n.children[s[2].unwrap()]);
    let implements = match s[3] {
        Some(j) => build_implements_interfaces(&n.children[j]),
        None => Vec::new(),
    };
    let directives = build_opt_directives(n, s[4]);
    let fields = match s[5] {
        Some(j) => build_fields_definition(&n.children[j]),
        None => Vec::new(),
    };
    ObjectTypeDefinition { description, position: n.position, name, implements, directives, fields }
}

/// Builds the type declaration that a `TypeDefinition` node wraps, by the rule of its only
/// child.
pub fn build_type_definition(n: &ParseNode) -> (r: TypeDefinition)
    requires
        wf_type_definition(*n),
    ensures
        type_definition_built(r, *n),
{
    let child = &n.children[0];
    if child.rule == Rule::ScalarTypeDefinition {
        TypeDefinition::Scalar(build_scalar_type_definition(child))
    } else {
        TypeDefinition::Object(build_object_type_definition(child))
    }
}

} // verus!
