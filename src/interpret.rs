use vstd::prelude::*;
use crate::convert::{
    SourceSpan, is_number, is_span, span_value, bool_value, u32_value, u64_value, usize_value, u8_value,
    list_value, tuple_value, punctuated_value, separated_shape,
};
use crate::generator::{
    ArmPlan, RoutinePlan, GeneratorConfig, node_planned, token_planned, variant_tag, DELIMITER_TOKENS,
    delimiter_token_name,
};
use crate::schema::{Data, Definitions};
use crate::routine::{NodeInput, fits, ran, arm_arity, run_plan, lemma_coverage};
use crate::tokens::{TokenTree, char_value, stream_value, stream_converted, tree_value, tree_converted};
use crate::value::{DynValue, double_value};

verus! {

/// A value of the syntax tree, as the runtime reads it.
pub enum NativeValue {
    /// An optional value that is missing.
    Missing,
    /// An optional value that is there.
    Present(Box<NativeValue>),
    /// An owned box: no more than its content.
    Boxed(Box<NativeValue>),
    Bool(bool),
    U32(u32),
    U64(u64),
    Usize(usize),
    U8(u8),
    Char(char),
    Str(String),
    List(Vec<NativeValue>),
    Tuple(Vec<NativeValue>),
    /// A separated list: a separator follows every element but perhaps the last.
    Separated { elements: Vec<NativeValue>, separators: Vec<NativeValue> },
    /// A token sequence.
    Tokens(Vec<TokenTree>),
    /// A single token tree, such as an identifier.
    Tree(TokenTree),
    /// A node or token of the catalog: the position of its routine, its
    /// parts and its span.
    Node { routine: usize, parts: NodeParts, span: SourceSpan },
}

/// The parts of a node, unconverted.
pub enum NodeParts {
    Private(Box<NativeValue>),
    Fields(Vec<NativeValue>),
    Variant { index: usize, payload: Vec<NativeValue> },
    Token,
}

/// `parts` has the shape that `plan` expects.
pub open spec fn parts_fit(plan: RoutinePlan, parts: NodeParts) -> bool {
    match (plan, parts) {
        (RoutinePlan::Private { .. }, NodeParts::Private(_)) => true,
        (RoutinePlan::Struct { fields: order, .. }, NodeParts::Fields(values)) => {
            &&& forall|k: int| 0 <= k < order@.len() ==> (#[trigger] order@[k]).1 < values@.len()
            &&& forall|a: int, b: int| 0 <= a < b < order@.len() ==> order@[a].1 != order@[b].1
        },
        (RoutinePlan::Enum { arms }, NodeParts::Variant { index, payload }) => {
            index < arms@.len() && payload@.len() == arm_arity(arms@[index as int])
        },
        (RoutinePlan::Token { .. }, NodeParts::Token) => true,
        _ => false,
    }
}

/// Every node in `v` names a routine of `plans` and has the shape it expects,
/// and every separated list has its separators.
pub open spec fn well_typed(plans: Seq<RoutinePlan>, v: NativeValue) -> bool
    decreases v,
{
    match v {
        NativeValue::Present(b) => well_typed(plans, *b),
        NativeValue::Boxed(b) => well_typed(plans, *b),
        NativeValue::List(items) => forall|k: int| 0 <= k < items@.len() ==> well_typed(plans, #[trigger] items@[k]),
        NativeValue::Tuple(items) => forall|k: int| 0 <= k < items@.len() ==> well_typed(plans, #[trigger] items@[k]),
        NativeValue::Separated { elements, separators } => {
            &&& separated_shape(elements@.len(), separators@.len())
            &&& forall|k: int| 0 <= k < elements@.len() ==> well_typed(plans, #[trigger] elements@[k])
            &&& forall|k: int| 0 <= k < separators@.len() ==> well_typed(plans, #[trigger] separators@[k])
        },
        NativeValue::Node { routine, parts, span } => {
            &&& routine < plans.len()
            &&& parts_fit(plans[routine as int], parts)
            &&& match parts {
                NodeParts::Private(b) => well_typed(plans, *b),
                NodeParts::Fields(values) => forall|k: int| 0 <= k < values@.len() ==> well_typed(plans, #[trigger] values@[k]),
                NodeParts::Variant { payload, .. } => forall|k: int| 0 <= k < payload@.len() ==> well_typed(plans, #[trigger] payload@[k]),
                NodeParts::Token => true,
            }
        },
        _ => true,
    }
}


/// Each of `outs` is what `ins` holds at the same index, converted.
pub open spec fn converts_each(plans: Seq<RoutinePlan>, ins: Seq<NativeValue>, outs: Seq<DynValue>) -> bool
    decreases ins,
{
    &&& ins.len() == outs.len()
    &&& forall|k: int| 0 <= k < ins.len() ==> converts(plans, #[trigger] ins[k], outs[k])
}

/// `input` holds the parts `parts`, each converted.
pub open spec fn converts_parts(plans: Seq<RoutinePlan>, parts: NodeParts, input: NodeInput) -> bool
    decreases parts,
{
    match (parts, input) {
        (NodeParts::Private(b), NodeInput::Private(d)) => converts(plans, *b, d),
        (NodeParts::Fields(values), NodeInput::Fields(ds)) => converts_each(plans, values@, ds@),
        (NodeParts::Variant { index, payload }, NodeInput::Variant { index: i, payload: ds }) => {
            index == i && converts_each(plans, payload@, ds@)
        },
        (NodeParts::Token, NodeInput::Token) => true,
        _ => false,
    }
}

/// `out` is the conversion of `v`: an optional value is its content or the
/// absent marker, a box is its content, integers are numbers (64-bit,
/// pointer-sized and byte values through a double), a character is its text,
/// lists and tuples are sequences tagged `Vec` and `Tuple`, a separated list
/// alternates elements and separators under `Punctuated`, and a node is what
/// its routine makes of its converted parts and span.
pub open spec fn converts(plans: Seq<RoutinePlan>, v: NativeValue, out: DynValue) -> bool
    decreases v,
{
    match v {
        NativeValue::Missing => out == DynValue::Absent,
        NativeValue::Present(b) => converts(plans, *b, out),
        NativeValue::Boxed(b) => converts(plans, *b, out),
        NativeValue::Bool(b) => out == DynValue::Bool(b),
        NativeValue::U32(x) => is_number(out, x as nat),
        NativeValue::U64(x) => is_number(out, double_value(x as nat)),
        NativeValue::Usize(x) => is_number(out, double_value(x as nat)),
        NativeValue::U8(x) => is_number(out, double_value(x as nat)),
        NativeValue::Char(c) => out matches DynValue::Text(t) && t@ == seq![c],
        NativeValue::Str(s) => out matches DynValue::Text(t) && t@ == s@,
        NativeValue::List(items) => match out {
            DynValue::Indexed { tag, fields, items: o } => tag@ == "Vec"@ && fields@.len() == 0
                && converts_each(plans, items@, o@),
            _ => false,
        },
        NativeValue::Tuple(items) => match out {
            DynValue::Indexed { tag, fields, items: o } => tag@ == "Tuple"@ && fields@.len() == 0
                && converts_each(plans, items@, o@),
            _ => false,
        },
        NativeValue::Separated { elements, separators } => match out {
            DynValue::Indexed { tag, fields, items: o } => {
                &&& tag@ == "Punctuated"@
                &&& fields@.len() == 0
                &&& o@.len() == elements@.len() + separators@.len()
                &&& forall|k: int| 0 <= k < elements@.len() ==> converts(plans, #[trigger] elements@[k], o@[2 * k])
                &&& forall|k: int| 0 <= k < separators@.len() ==> converts(plans, #[trigger] separators@[k], o@[2 * k + 1])
            },
            _ => false,
        },
        NativeValue::Tokens(ts) => stream_converted(ts@, out),
        NativeValue::Tree(t) => tree_converted(t, out),
        NativeValue::Node { routine, parts, span } => {
            exists|input: NodeInput, sp: DynValue| converts_parts(plans, parts, input) && is_span(sp, span)
                && ran(plans[routine as int], input, sp, out)
        },
    }
}


/// Converts each value of a list, in order.
pub fn convert_each(plans: &Vec<RoutinePlan>, ins: Vec<NativeValue>) -> (r: Vec<DynValue>)
    requires
        forall|k: int| 0 <= k < ins@.len() ==> well_typed(plans@, #[trigger] ins@[k]),
    ensures
        converts_each(plans@, ins@, r@),
    decreases ins@,
{
    let ghost orig = ins;
    let mut rest = ins;
    let mut r: Vec<DynValue> = Vec::new();
    let n = rest.len();
    let mut i: usize = 0;
    while i < n
        invariant
            n == orig@.len(),
            orig == ins,
            rest@.len() == n,
            i <= n,
            forall|k: int| i <= k < n ==> rest@[k] == orig@[k],
            forall|k: int| 0 <= k < n ==> well_typed(plans@, #[trigger] orig@[k]),
            r@.len() == i,
            forall|k: int| 0 <= k < i ==> converts(plans@, #[trigger] orig@[k], r@[k]),
        decreases n - i,
    {
        let mut taken = NativeValue::Missing;
        rest.set_and_swap(i, &mut taken);
        proof {
            vstd::std_specs::vec::axiom_vec_index_decreases(orig, i as int);
            assert(taken == orig@[i as int]);
            assert(decreases_to!(orig@ => taken));
        }
        let out = convert(plans, taken);
        r.push(out);
        i = i + 1;
    }
    r
}

/// Converts a value of the syntax tree, running the routine of each node it
/// holds on that node's converted parts.
pub fn convert(plans: &Vec<RoutinePlan>, v: NativeValue) -> (r: DynValue)
    requires
        well_typed(plans@, v),
    ensures
        converts(plans@, v, r),
    decreases v,
{
    match v {
        NativeValue::Missing => DynValue::Absent,
        NativeValue::Present(b) => convert(plans, *b),
        NativeValue::Boxed(b) => convert(plans, *b),
        NativeValue::Bool(b) => bool_value(b),
        NativeValue::U32(x) => u32_value(x),
        NativeValue::U64(x) => u64_value(x),
        NativeValue::Usize(x) => usize_value(x),
        NativeValue::U8(x) => u8_value(x),
        NativeValue::Char(c) => char_value(c),
        NativeValue::Str(s) => DynValue::Text(s),
        NativeValue::List(items) => list_value(convert_each(plans, items)),
        NativeValue::Tuple(items) => tuple_value(convert_each(plans, items)),
        NativeValue::Separated { elements, separators } => {
            let els = convert_each(plans, elements);
            let seps = convert_each(plans, separators);
            punctuated_value(els, seps)
        },
        NativeValue::Tokens(ts) => stream_value(&ts),
        NativeValue::Tree(t) => tree_value(&t),
        NativeValue::Node { routine, parts, span } => {
            let input = match parts {
                NodeParts::Private(b) => NodeInput::Private(convert(plans, *b)),
                NodeParts::Fields(values) => NodeInput::Fields(convert_each(plans, values)),
                NodeParts::Variant { index, payload } => NodeInput::Variant {
                    index,
                    payload: convert_each(plans, payload),
                },
                NodeParts::Token => NodeInput::Token,
            };
            let ghost g = input;
            let sp = span_value(&span);
            let ghost gsp = sp;
            let out = run_plan(&plans[routine], input, sp);
            assert(converts_parts(plans@, parts, g) && is_span(gsp, span) && ran(plans@[routine as int], g, gsp, out));
            out
        },
    }
}


/// Converting a node of the tree with the routines derived from a catalog
/// gives a value tagged with the node's or token's name (`Enum::Variant` for
/// an enum variant), except for a variant with a single payload, which is
/// the conversion of that payload.
pub proof fn lemma_tree_coverage(
    c: GeneratorConfig,
    defs: Definitions,
    plans: Seq<RoutinePlan>,
    v: NativeValue,
    out: DynValue,
)
    requires
        plans.len() == defs.types@.len() + defs.tokens@.len() + DELIMITER_TOKENS,
        forall|i: int| 0 <= i < defs.types@.len() ==> node_planned(c, #[trigger] plans[i], defs.types@[i]),
        forall|j: int| 0 <= j < defs.tokens@.len()
            ==> token_planned(#[trigger] plans[defs.types@.len() + j], defs.tokens@[j].0@),
        forall|j: int| 0 <= j < DELIMITER_TOKENS
            ==> token_planned(#[trigger] plans[defs.types@.len() + defs.tokens@.len() + j], delimiter_token_name(j)),
        v is Node,
        well_typed(plans, v),
        converts(plans, v, out),
    ensures
        ({
            let k = v->Node_routine as int;
            &&& k < defs.types@.len() ==> match defs.types@[k].data {
                Data::Enum(variants) => v->Node_parts matches NodeParts::Variant { index, payload } && if variants@[index as int].1@.len() == 1 {
                    converts(plans, payload@[0], out)
                } else {
                    out.tag() == Some(variant_tag(defs.types@[k].ident@, variants@[index as int].0@))
                },
                _ => out.tag() == Some(defs.types@[k].ident@),
            }
            &&& defs.types@.len() <= k < defs.types@.len() + defs.tokens@.len()
                ==> out.tag() == Some(defs.tokens@[k - defs.types@.len()].0@)
            &&& k >= defs.types@.len() + defs.tokens@.len()
                ==> out.tag() == Some(delimiter_token_name(k - defs.types@.len() - defs.tokens@.len()))
        }),
{
    let k = v->Node_routine as int;
    let parts = v->Node_parts;
    let span = v->Node_span;
    let (input, sp) = choose|input: NodeInput, sp: DynValue| converts_parts(plans, parts, input)
        && is_span(sp, span) && ran(plans[k], input, sp, out);
    assert(fits(plans[k], input));
    lemma_coverage(c, defs, plans, k, input, sp, out);
}


/// Whether every emitted position is below `n` and no position repeats.
fn order_fits(order: &Vec<(String, usize)>, n: usize) -> (r: bool)
    ensures
        r == ((forall|k: int| 0 <= k < order@.len() ==> (#[trigger] order@[k]).1 < n)
            && (forall|a: int, b: int| 0 <= a < b < order@.len() ==> order@[a].1 != order@[b].1)),
{
    let mut i: usize = 0;
    while i < order.len()
        invariant
            i <= order@.len(),
            forall|k: int| 0 <= k < i ==> (#[trigger] order@[k]).1 < n,
            forall|a: int, b: int| 0 <= a < b < order@.len() && a < i ==> order@[a].1 != order@[b].1,
        decreases order.len() - i,
    {
        if order[i].1 >= n {
            return false;
        }
        let mut j: usize = i + 1;
        while j < order.len()
            invariant
                i < j <= order@.len(),
                forall|b: int| i < b < j ==> order@[i as int].1 != order@[b].1,
            decreases order.len() - j,
        {
            if order[i].1 == order[j].1 {
                return false;
            }
            j = j + 1;
        }
        i = i + 1;
    }
    true
}

/// Whether `parts` has the shape that `plan` expects.
pub fn parts_fit_plan(plan: &RoutinePlan, parts: &NodeParts) -> (r: bool)
    ensures
        r == parts_fit(*plan, *parts),
{
    match (plan, parts) {
        (RoutinePlan::Private { .. }, NodeParts::Private(_)) => true,
        (RoutinePlan::Struct { fields: order, .. }, NodeParts::Fields(values)) => order_fits(order, values.len()),
        (RoutinePlan::Enum { arms }, NodeParts::Variant { index, payload }) => {
            if *index >= arms.len() {
                return false;
            }
            let arity: usize = match &arms[*index] {
                ArmPlan::Unit { .. } => 0,
                ArmPlan::Transparent => 1,
                ArmPlan::Positional { arity, .. } => *arity,
            };
            payload.len() == arity
        },
        (RoutinePlan::Token { .. }, NodeParts::Token) => true,
        _ => false,
    }
}

/// Whether every value of `items` is well typed.
pub fn check_each(plans: &Vec<RoutinePlan>, items: &Vec<NativeValue>) -> (r: bool)
    ensures
        r == forall|k: int| 0 <= k < items@.len() ==> well_typed(plans@, #[trigger] items@[k]),
    decreases items@,
{
    let mut i: usize = 0;
    while i < items.len()
        invariant
            i <= items@.len(),
            forall|k: int| 0 <= k < i ==> well_typed(plans@, #[trigger] items@[k]),
        decreases items.len() - i,
    {
        proof {
            assert(decreases_to!(items@ => items@[i as int]));
        }
        if !check_well_typed(plans, &items[i]) {
            return false;
        }
        i = i + 1;
    }
    true
}

/// Whether `v` is well typed for `plans`.
pub fn check_well_typed(plans: &Vec<RoutinePlan>, v: &NativeValue) -> (r: bool)
    ensures
        r == well_typed(plans@, *v),
    decreases v,
{
    match v {
        NativeValue::Present(b) => check_well_typed(plans, b),
        NativeValue::Boxed(b) => check_well_typed(plans, b),
        NativeValue::List(items) => check_each(plans, items),
        NativeValue::Tuple(items) => check_each(plans, items),
        NativeValue::Separated { elements, separators } => {
            let n = elements.len();
            let m = separators.len();
            (m == n || (n >= 1 && m == n - 1)) && check_each(plans, elements) && check_each(plans, separators)
        },
        NativeValue::Node { routine, parts, .. } => {
            if *routine >= plans.len() || !parts_fit_plan(&plans[*routine], parts) {
                return false;
            }
            match parts {
                NodeParts::Private(b) => check_well_typed(plans, b),
                NodeParts::Fields(values) => check_each(plans, values),
                NodeParts::Variant { payload, .. } => check_each(plans, payload),
                NodeParts::Token => true,
            }
        },
        _ => true,
    }
}

} // verus!
