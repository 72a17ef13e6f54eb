use vstd::prelude::*;
use crate::convert::text;
use crate::generator::{
    ArmPlan, RoutinePlan, GeneratorConfig, node_planned, token_planned, variant_tag, grouping,
    DELIMITER_TOKENS, delimiter_token_name,
    emission_positions, lemma_grouping_fields_last,
};
use crate::schema::{Data, Definitions, Node};
use crate::value::DynValue;

verus! {

/// What a routine is applied to, its parts already converted.
pub enum NodeInput {
    /// The value of a private node.
    Private(DynValue),
    /// The fields of a struct node, in declaration order.
    Fields(Vec<DynValue>),
    /// An enum value: the position of its variant and its payloads.
    Variant { index: usize, payload: Vec<DynValue> },
    /// A token, which holds nothing but its span.
    Token,
}

/// How many payloads the arm takes.
pub open spec fn arm_arity(arm: ArmPlan) -> nat {
    match arm {
        ArmPlan::Unit { .. } => 0,
        ArmPlan::Transparent => 1,
        ArmPlan::Positional { arity, .. } => arity as nat,
    }
}

/// `input` has the shape that `plan` expects.
pub open spec fn fits(plan: RoutinePlan, input: NodeInput) -> bool {
    match (plan, input) {
        (RoutinePlan::Private { .. }, NodeInput::Private(_)) => true,
        (RoutinePlan::Struct { fields: order, .. }, NodeInput::Fields(values)) => {
            &&& forall|k: int| 0 <= k < order@.len() ==> (#[trigger] order@[k]).1 < values@.len()
            &&& forall|a: int, b: int| 0 <= a < b < order@.len() ==> order@[a].1 != order@[b].1
        },
        (RoutinePlan::Enum { arms }, NodeInput::Variant { index, payload }) => {
            index < arms@.len() && payload@.len() == arm_arity(arms@[index as int])
        },
        (RoutinePlan::Token { .. }, NodeInput::Token) => true,
        _ => false,
    }
}

/// `f` is the field `("span", span)`.
pub open spec fn span_field(f: (String, DynValue), span: DynValue) -> bool {
    f.0@ == "span"@ && f.1 == span
}

/// `out` is what `plan` makes of `input`, with `span` for the node's position.
pub open spec fn ran(plan: RoutinePlan, input: NodeInput, span: DynValue, out: DynValue) -> bool {
    match (plan, input) {
        (RoutinePlan::Private { tag }, NodeInput::Private(v)) => {
            out matches DynValue::Object { tag: t, fields } && t@ == tag@ && fields@.len() == 2
                && fields@[0].0@ == "value"@ && fields@[0].1 == v && span_field(fields@[1], span)
        },
        (RoutinePlan::Struct { tag, fields: order, span: spanned }, NodeInput::Fields(values)) => {
            out matches DynValue::Object { tag: t, fields } && t@ == tag@
                && fields@.len() == order@.len() + (if spanned { 1int } else { 0 })
                && (forall|k: int| 0 <= k < order@.len() ==> (#[trigger] fields@[k]).0@ == order@[k].0@
                    && fields@[k].1 == values@[order@[k].1 as int])
                && (spanned ==> span_field(fields@[order@.len() as int], span))
        },
        (RoutinePlan::Enum { arms }, NodeInput::Variant { index, payload }) => {
            match arms@[index as int] {
                ArmPlan::Unit { tag } => {
                    out matches DynValue::Object { tag: t, fields } && t@ == tag@ && fields@.len() == 0
                },
                ArmPlan::Transparent => out == payload@[0],
                ArmPlan::Positional { tag, .. } => {
                    out matches DynValue::Indexed { tag: t, fields, items } && t@ == tag@
                        && fields@.len() == 1 && span_field(fields@[0], span) && items@ == payload@
                },
            }
        },
        (RoutinePlan::Token { tag }, NodeInput::Token) => {
            out matches DynValue::Object { tag: t, fields } && t@ == tag@ && fields@.len() == 1
                && span_field(fields@[0], span)
        },
        _ => false,
    }
}

fn span_only(span: DynValue) -> (r: Vec<(String, DynValue)>)
    ensures
        r@.len() == 1,
        span_field(r@[0], span),
{
    let mut fields: Vec<(String, DynValue)> = Vec::new();
    fields.push((text("span"), span));
    fields
}

/// The fields of a struct node in emitted order, then its span if `spanned`.
fn struct_fields(order: &Vec<(String, usize)>, values: Vec<DynValue>, spanned: bool, span: DynValue)
    -> (r: Vec<(String, DynValue)>)
    requires
        forall|k: int| 0 <= k < order@.len() ==> (#[trigger] order@[k]).1 < values@.len(),
        forall|a: int, b: int| 0 <= a < b < order@.len() ==> order@[a].1 != order@[b].1,
    ensures
        r@.len() == order@.len() + (if spanned { 1int } else { 0 }),
        forall|k: int| 0 <= k < order@.len() ==> (#[trigger] r@[k]).0@ == order@[k].0@
            && r@[k].1 == values@[order@[k].1 as int],
        spanned ==> span_field(r@[order@.len() as int], span),
{
    let ghost v0 = values@;
    let mut values = values;
    let mut r: Vec<(String, DynValue)> = Vec::new();
    let mut i: usize = 0;
    while i < order.len()
        invariant
            i <= order@.len(),
            values@.len() == v0.len(),
            forall|k: int| 0 <= k < order@.len() ==> (#[trigger] order@[k]).1 < values@.len(),
            forall|a: int, b: int| 0 <= a < b < order@.len() ==> order@[a].1 != order@[b].1,
            forall|k: int| i <= k < order@.len() ==> values@[(#[trigger] order@[k]).1 as int] == v0[order@[k].1 as int],
            r@.len() == i,
            forall|k: int| 0 <= k < i ==> (#[trigger] r@[k]).0@ == order@[k].0@
                && r@[k].1 == v0[order@[k].1 as int],
        decreases order.len() - i,
    {
        let p = order[i].1;
        let mut taken = DynValue::Absent;
        values.set_and_swap(p, &mut taken);
        proof {
            assert forall|k: int| i + 1 <= k < order@.len() implies values@[(#[trigger] order@[k]).1 as int]
                == v0[order@[k].1 as int] by {
                assert(order@[i as int].1 != order@[k].1);
            }
        }
        r.push((order[i].0.clone(), taken));
        i = i + 1;
    }
    if spanned {
        r.push((text("span"), span));
    }
    r
}

/// Applies a conversion routine to a node's converted parts.
pub fn run_plan(plan: &RoutinePlan, input: NodeInput, span: DynValue) -> (r: DynValue)
    requires
        fits(*plan, input),
    ensures
        ran(*plan, input, span, r),
{
    match (plan, input) {
        (RoutinePlan::Private { tag }, NodeInput::Private(v)) => {
            let mut fields: Vec<(String, DynValue)> = Vec::new();
            fields.push((text("value"), v));
            fields.push((text("span"), span));
            DynValue::Object { tag: tag.clone(), fields }
        },
        (RoutinePlan::Struct { tag, fields: order, span: spanned }, NodeInput::Fields(values)) => {
            DynValue::Object { tag: tag.clone(), fields: struct_fields(order, values, *spanned, span) }
        },
        (RoutinePlan::Enum { arms }, NodeInput::Variant { index, payload }) => {
            match &arms[index] {
                ArmPlan::Unit { tag } => DynValue::Object { tag: tag.clone(), fields: Vec::new() },
                ArmPlan::Transparent => {
                    let mut payload = payload;
                    let mut inner = DynValue::Absent;
                    payload.set_and_swap(0, &mut inner);
                    inner
                },
                ArmPlan::Positional { tag, .. } => {
                    DynValue::Indexed { tag: tag.clone(), fields: span_only(span), items: payload }
                },
            }
        },
        (RoutinePlan::Token { tag }, NodeInput::Token) => {
            DynValue::Object { tag: tag.clone(), fields: span_only(span) }
        },
        _ => DynValue::Absent,
    }
}


/// The object made for a struct node holds its fields in an order where each
/// field of a grouping type comes after every other field, and the node's
/// `span`, when it has one, after all of them. Any list of converted field
/// values, one per field, fits the node's routine.
pub proof fn lemma_field_order(
    c: GeneratorConfig,
    node: Node,
    plan: RoutinePlan,
    values: Vec<DynValue>,
    span: DynValue,
    out: DynValue,
)
    requires
        node.data is Struct,
        node_planned(c, plan, node),
        values@.len() == node.data->Struct_0@.len(),
    ensures
        fits(plan, NodeInput::Fields(values)),
        ran(plan, NodeInput::Fields(values), span, out) ==> {
            let fields = node.data->Struct_0@;
            let order = plan->Struct_fields@;
            &&& out matches DynValue::Object { fields: emitted, .. } && {
                &&& forall|a: int, b: int| 0 <= a < b < order.len()
                    && grouping(c, fields[order[a].1 as int].1)
                    ==> grouping(c, fields[order[b].1 as int].1) && emitted@[b].0@ == fields[order[b].1 as int].0@
                &&& plan->Struct_span ==> emitted@.len() == order.len() + 1
                    && span_field(emitted@[order.len() as int], span)
            }
        },
{
    let fields = node.data->Struct_0@;
    lemma_grouping_fields_last(c, fields);
    let e = emission_positions(c, fields);
    let order = plan->Struct_fields@;
    assert forall|k: int| 0 <= k < order.len() implies (#[trigger] order[k]).1 < values@.len() by {
        assert(order[k].1 as int == e[k]);
    }
    assert forall|a: int, b: int| 0 <= a < b < order.len() implies order[a].1 != order[b].1 by {
        assert(order[a].1 as int == e[a]);
        assert(order[b].1 as int == e[b]);
    }
    assert forall|a: int, b: int| 0 <= a < b < order.len() && grouping(c, fields[order[a].1 as int].1)
        implies grouping(c, fields[order[b].1 as int].1) by {
        assert(order[a].1 as int == e[a]);
        assert(order[b].1 as int == e[b]);
    }
}

/// Every routine that the generator derives tags what it makes with the name
/// of its node or token: a private or struct node with its identifier, an
/// enum variant with `Enum::Variant`, a token with its name. A variant with a
/// single payload adds no tag: it hands on the payload's own value.
pub proof fn lemma_coverage(
    c: GeneratorConfig,
    defs: Definitions,
    plans: Seq<RoutinePlan>,
    k: int,
    input: NodeInput,
    span: DynValue,
    out: DynValue,
)
    requires
        plans.len() == defs.types@.len() + defs.tokens@.len() + DELIMITER_TOKENS,
        forall|i: int| 0 <= i < defs.types@.len() ==> node_planned(c, #[trigger] plans[i], defs.types@[i]),
        forall|j: int| 0 <= j < defs.tokens@.len()
            ==> token_planned(#[trigger] plans[defs.types@.len() + j], defs.tokens@[j].0@),
        forall|j: int| 0 <= j < DELIMITER_TOKENS
            ==> token_planned(#[trigger] plans[defs.types@.len() + defs.tokens@.len() + j], delimiter_token_name(j)),
        0 <= k < plans.len(),
        fits(plans[k], input),
        ran(plans[k], input, span, out),
    ensures
        k < defs.types@.len() ==> match defs.types@[k].data {
            Data::Enum(variants) => input matches NodeInput::Variant { index, payload } && if variants@[index as int].1@.len() == 1 {
                out == payload@[0]
            } else {
                out.tag() == Some(variant_tag(defs.types@[k].ident@, variants@[index as int].0@))
            },
            _ => out.tag() == Some(defs.types@[k].ident@),
        },
        defs.types@.len() <= k < defs.types@.len() + defs.tokens@.len()
            ==> out.tag() == Some(defs.tokens@[k - defs.types@.len()].0@),
        k >= defs.types@.len() + defs.tokens@.len()
            ==> out.tag() == Some(delimiter_token_name(k - defs.types@.len() - defs.tokens@.len())),
{
    if k >= defs.types@.len() + defs.tokens@.len() {
        let j = k - defs.types@.len() - defs.tokens@.len();
        assert(token_planned(plans[defs.types@.len() + defs.tokens@.len() + j], delimiter_token_name(j)));
    } else if k >= defs.types@.len() {
        let j = k - defs.types@.len();
        assert(token_planned(plans[defs.types@.len() + j], defs.tokens@[j].0@));
    } else {
        assert(node_planned(c, plans[k], defs.types@[k]));
    }
}

} // verus!
