use vstd::prelude::*;
use crate::schema::{Type, Data, Node, Definitions};
use vstd::string::StringExecFns;
use crate::convert::text;

verus! {

/// Hand-maintained name lists that steer the generator.
pub struct GeneratorConfig {
    /// Nodes whose position is unreliable: their objects get no `span` field.
    pub unspanned: Vec<String>,
    /// Nodes that mark a delimiter: fields of these types are emitted last.
    pub delimiter_markers: Vec<String>,
}

/// The lists for the syntax catalog: the positions of `DataStruct`,
/// `DataEnum`, `DataUnion`, `FnDecl` and `QSelf` are unreliable, and
/// `MacroDelimiter` marks a delimiter.
pub fn default_config() -> (c: GeneratorConfig)
    ensures
        c.unspanned@.len() == 5,
        c.unspanned@[0]@ == "DataStruct"@,
        c.unspanned@[1]@ == "DataEnum"@,
        c.unspanned@[2]@ == "DataUnion"@,
        c.unspanned@[3]@ == "FnDecl"@,
        c.unspanned@[4]@ == "QSelf"@,
        c.delimiter_markers@.len() == 1,
        c.delimiter_markers@[0]@ == "MacroDelimiter"@,
{
    let mut unspanned: Vec<String> = Vec::new();
    unspanned.push(text("DataStruct"));
    unspanned.push(text("DataEnum"));
    unspanned.push(text("DataUnion"));
    unspanned.push(text("FnDecl"));
    unspanned.push(text("QSelf"));
    let mut delimiter_markers: Vec<String> = Vec::new();
    delimiter_markers.push(text("MacroDelimiter"));
    GeneratorConfig { unspanned, delimiter_markers }
}

pub open spec fn contains_name(names: Seq<String>, name: Seq<char>) -> bool {
    exists|i: int| 0 <= i < names.len() && names[i]@ == name
}

/// Whether `name` is one of `names`.
pub fn list_contains(names: &Vec<String>, name: &String) -> (r: bool)
    ensures
        r == contains_name(names@, name@),
{
    let mut i: usize = 0;
    while i < names.len()
        invariant
            i <= names.len(),
            forall|k: int| 0 <= k < i ==> names@[k]@ != name@,
        decreases names.len() - i,
    {
        if names[i] == *name {
            return true;
        }
        i = i + 1;
    }
    false
}


/// Fields of this type are moved to the end of the emitted order.
pub open spec fn grouping(c: GeneratorConfig, ty: Type) -> bool {
    match ty {
        Type::Group(_) => true,
        Type::Syn(name) => contains_name(c.delimiter_markers@, name@),
        _ => false,
    }
}

/// Positions of the fields that are not grouping, in declaration order.
pub open spec fn plain_positions(c: GeneratorConfig, fields: Seq<(String, Type)>) -> Seq<int>
    decreases fields.len(),
{
    if fields.len() == 0 {
        Seq::empty()
    } else {
        let prev = plain_positions(c, fields.drop_last());
        if grouping(c, fields.last().1) {
            prev
        } else {
            prev.push(fields.len() - 1)
        }
    }
}

/// Positions of the grouping fields, in declaration order.
pub open spec fn grouped_positions(c: GeneratorConfig, fields: Seq<(String, Type)>) -> Seq<int>
    decreases fields.len(),
{
    if fields.len() == 0 {
        Seq::empty()
    } else {
        let prev = grouped_positions(c, fields.drop_last());
        if grouping(c, fields.last().1) {
            prev.push(fields.len() - 1)
        } else {
            prev
        }
    }
}

/// The emitted order of a struct's fields, as declaration positions: every
/// other field first, then the grouping ones, each part in declaration order.
pub open spec fn emission_positions(c: GeneratorConfig, fields: Seq<(String, Type)>) -> Seq<int> {
    plain_positions(c, fields) + grouped_positions(c, fields)
}

/// Objects of this node carry a `span` field.
pub open spec fn spanned(c: GeneratorConfig, ident: Seq<char>) -> bool {
    !contains_name(c.unspanned@, ident)
}

/// The tag of an enum variant: `Enum::Variant`.
pub open spec fn variant_tag(enum_name: Seq<char>, variant: Seq<char>) -> Seq<char> {
    enum_name + seq![':', ':'] + variant
}

/// Whether a field of type `ty` is emitted last.
pub fn is_grouping(c: &GeneratorConfig, ty: &Type) -> (r: bool)
    ensures
        r == grouping(*c, *ty),
{
    match ty {
        Type::Group(_) => true,
        Type::Syn(name) => list_contains(&c.delimiter_markers, name),
        _ => false,
    }
}

pub proof fn lemma_positions_len(c: GeneratorConfig, fields: Seq<(String, Type)>)
    ensures
        plain_positions(c, fields).len() + grouped_positions(c, fields).len() == fields.len(),
        forall|k: int| 0 <= k < plain_positions(c, fields).len() ==> {
            let p = #[trigger] plain_positions(c, fields)[k];
            0 <= p < fields.len() && !grouping(c, fields[p].1)
        },
        forall|k: int| 0 <= k < grouped_positions(c, fields).len() ==> {
            let p = #[trigger] grouped_positions(c, fields)[k];
            0 <= p < fields.len() && grouping(c, fields[p].1)
        },
        forall|a: int, b: int| 0 <= a < b < plain_positions(c, fields).len()
            ==> plain_positions(c, fields)[a] < plain_positions(c, fields)[b],
        forall|a: int, b: int| 0 <= a < b < grouped_positions(c, fields).len()
            ==> grouped_positions(c, fields)[a] < grouped_positions(c, fields)[b],
    decreases fields.len(),
{
    if fields.len() > 0 {
        let prev = fields.drop_last();
        lemma_positions_len(c, prev);
        assert forall|k: int| 0 <= k < prev.len() implies prev[k] == fields[k] by {}
    }
}

/// The emitted order of a struct's fields is a reordering of them in which
/// every field of a grouping type comes after every field of another type.
pub proof fn lemma_grouping_fields_last(c: GeneratorConfig, fields: Seq<(String, Type)>)
    ensures
        emission_positions(c, fields).len() == fields.len(),
        forall|k: int| 0 <= k < fields.len()
            ==> 0 <= #[trigger] emission_positions(c, fields)[k] < fields.len(),
        forall|a: int, b: int| 0 <= a < b < fields.len()
            ==> emission_positions(c, fields)[a] != emission_positions(c, fields)[b],
        forall|a: int, b: int| 0 <= a < b < fields.len()
            && grouping(c, fields[emission_positions(c, fields)[a]].1)
            ==> grouping(c, fields[emission_positions(c, fields)[b]].1),
{
    lemma_positions_len(c, fields);
    let p = plain_positions(c, fields);
    let g = grouped_positions(c, fields);
    let e = emission_positions(c, fields);
    assert forall|k: int| 0 <= k < fields.len() implies 0 <= #[trigger] e[k] < fields.len() by {
        if k >= p.len() {
            assert(e[k] == g[k - p.len()]);
        }
    }
    assert forall|a: int, b: int| 0 <= a < b < fields.len() implies e[a] != e[b] by {
        if b < p.len() {
        } else if a >= p.len() {
            assert(e[a] == g[a - p.len()]);
            assert(e[b] == g[b - p.len()]);
        } else {
            assert(e[a] == p[a]);
            assert(e[b] == g[b - p.len()]);
            assert(!grouping(c, fields[p[a]].1));
        }
    }
    assert forall|a: int, b: int| 0 <= a < b < fields.len() && grouping(c, fields[e[a]].1)
        implies grouping(c, fields[e[b]].1) by {
        if a < p.len() {
            assert(e[a] == p[a]);
        } else {
            assert(e[a] == g[a - p.len()]);
            assert(e[b] == g[b - p.len()]);
        }
    }
}

/// The emitted fields of a struct node: each one's name and declaration
/// position, in emitted order.
pub fn emission_order(c: &GeneratorConfig, fields: &Vec<(String, Type)>) -> (r: Vec<(String, usize)>)
    ensures
        r@.len() == emission_positions(*c, fields@).len(),
        forall|k: int| 0 <= k < r@.len() ==> {
            &&& (#[trigger] r@[k]).1 as int == emission_positions(*c, fields@)[k]
            &&& r@[k].0@ == fields@[r@[k].1 as int].0@
        },
{
    let mut plain: Vec<(String, usize)> = Vec::new();
    let mut grouped: Vec<(String, usize)> = Vec::new();
    let mut i: usize = 0;
    while i < fields.len()
        invariant
            i <= fields.len(),
            plain@.len() == plain_positions(*c, fields@.subrange(0, i as int)).len(),
            grouped@.len() == grouped_positions(*c, fields@.subrange(0, i as int)).len(),
            forall|k: int| 0 <= k < plain@.len() ==> {
                &&& (#[trigger] plain@[k]).1 as int == plain_positions(*c, fields@.subrange(0, i as int))[k]
                &&& plain@[k].0@ == fields@[plain@[k].1 as int].0@
            },
            forall|k: int| 0 <= k < grouped@.len() ==> {
                &&& (#[trigger] grouped@[k]).1 as int == grouped_positions(*c, fields@.subrange(0, i as int))[k]
                &&& grouped@[k].0@ == fields@[grouped@[k].1 as int].0@
            },
        decreases fields.len() - i,
    {
        let ghost next = fields@.subrange(0, i as int + 1);
        assert(next.drop_last() =~= fields@.subrange(0, i as int));
        let entry = (fields[i].0.clone(), i);
        if is_grouping(c, &fields[i].1) {
            grouped.push(entry);
        } else {
            plain.push(entry);
        }
        i = i + 1;
    }
    assert(fields@.subrange(0, fields@.len() as int) =~= fields@);
    let ghost p = plain@;
    let mut r = plain;
    let mut j: usize = 0;
    while j < grouped.len()
        invariant
            j <= grouped.len(),
            r@.len() == p.len() + j,
            p.len() == plain_positions(*c, fields@).len(),
            grouped@.len() == grouped_positions(*c, fields@).len(),
            forall|k: int| 0 <= k < p.len() ==> #[trigger] r@[k] == p[k],
            forall|k: int| 0 <= k < j ==> #[trigger] r@[p.len() + k] == grouped@[k],
            forall|k: int| 0 <= k < p.len() ==> {
                &&& (#[trigger] p[k]).1 as int == plain_positions(*c, fields@)[k]
                &&& p[k].0@ == fields@[p[k].1 as int].0@
            },
            forall|k: int| 0 <= k < grouped@.len() ==> {
                &&& (#[trigger] grouped@[k]).1 as int == grouped_positions(*c, fields@)[k]
                &&& grouped@[k].0@ == fields@[grouped@[k].1 as int].0@
            },
        decreases grouped.len() - j,
    {
        let entry = (grouped[j].0.clone(), grouped[j].1);
        r.push(entry);
        j = j + 1;
    }
    proof {
        let e = emission_positions(*c, fields@);
        assert forall|k: int| 0 <= k < r@.len() implies {
            &&& (#[trigger] r@[k]).1 as int == e[k]
            &&& r@[k].0@ == fields@[r@[k].1 as int].0@
        } by {
            if k >= p.len() {
                assert(r@[p.len() + (k - p.len())] == grouped@[k - p.len()]);
            }
        }
    }
    r
}


/// How one enum variant is converted.
pub enum ArmPlan {
    /// No payload: an object holding only the tag.
    Unit { tag: String },
    /// One payload: the payload's own conversion, with no tag added.
    Transparent,
    /// Several payloads: a tagged object with a span and the payloads as items.
    Positional { tag: String, arity: usize },
}

/// The shape of the conversion routine of one node or token.
pub enum RoutinePlan {
    /// Tag, the node's value, and its span.
    Private { tag: String },
    /// Tag, then the fields in emitted order (name and declaration position),
    /// then a span when `span` holds.
    Struct { tag: String, fields: Vec<(String, usize)>, span: bool },
    /// One arm per variant, in declaration order.
    Enum { arms: Vec<ArmPlan> },
    /// Tag and span only.
    Token { tag: String },
}

/// `arm` is the plan of the variant `variant` of the enum `enum_name`.
pub open spec fn arm_planned(arm: ArmPlan, enum_name: Seq<char>, variant: (String, Vec<Type>)) -> bool {
    if variant.1@.len() == 0 {
        arm matches ArmPlan::Unit { tag } && tag@ == variant_tag(enum_name, variant.0@)
    } else if variant.1@.len() == 1 {
        arm matches ArmPlan::Transparent
    } else {
        arm matches ArmPlan::Positional { tag, arity } && tag@ == variant_tag(enum_name, variant.0@)
            && arity == variant.1@.len()
    }
}

/// `plan` is the conversion routine of `node` under `c`.
pub open spec fn node_planned(c: GeneratorConfig, plan: RoutinePlan, node: Node) -> bool {
    match node.data {
        Data::Private => plan matches RoutinePlan::Private { tag } && tag@ == node.ident@,
        Data::Struct(fields) => match plan {
            RoutinePlan::Struct { tag, fields: order, span } => {
                &&& tag@ == node.ident@
                &&& span == spanned(c, node.ident@)
                &&& order@.len() == emission_positions(c, fields@).len()
                &&& forall|k: int| 0 <= k < order@.len() ==> {
                    &&& (#[trigger] order@[k]).1 as int == emission_positions(c, fields@)[k]
                    &&& order@[k].0@ == fields@[order@[k].1 as int].0@
                }
            },
            _ => false,
        },
        Data::Enum(variants) => match plan {
            RoutinePlan::Enum { arms } => {
                &&& arms@.len() == variants@.len()
                &&& forall|k: int| 0 <= k < arms@.len()
                    ==> arm_planned(#[trigger] arms@[k], node.ident@, variants@[k])
            },
            _ => false,
        },
    }
}

/// `plan` is the conversion routine of the token named `name`.
pub open spec fn token_planned(plan: RoutinePlan, name: Seq<char>) -> bool {
    plan matches RoutinePlan::Token { tag } && tag@ == name
}

/// Whether objects of the node `ident` carry a `span` field.
pub fn has_span(c: &GeneratorConfig, ident: &String) -> (r: bool)
    ensures
        r == spanned(*c, ident@),
{
    !list_contains(&c.unspanned, ident)
}

/// The tag `Enum::Variant`.
pub fn make_variant_tag(enum_name: &String, variant: &String) -> (r: String)
    ensures
        r@ == variant_tag(enum_name@, variant@),
{
    proof {
        reveal_strlit("::");
    }
    enum_name.clone().concat("::").concat(variant.as_str())
}

/// The plan of one enum variant.
pub fn plan_arm(enum_name: &String, variant: &(String, Vec<Type>)) -> (r: ArmPlan)
    ensures
        arm_planned(r, enum_name@, *variant),
{
    let n = variant.1.len();
    if n == 0 {
        ArmPlan::Unit { tag: make_variant_tag(enum_name, &variant.0) }
    } else if n == 1 {
        ArmPlan::Transparent
    } else {
        ArmPlan::Positional { tag: make_variant_tag(enum_name, &variant.0), arity: n }
    }
}

/// The conversion routine of one node.
pub fn plan_node(c: &GeneratorConfig, node: &Node) -> (r: RoutinePlan)
    ensures
        node_planned(*c, r, *node),
{
    match &node.data {
        Data::Private => RoutinePlan::Private { tag: node.ident.clone() },
        Data::Struct(fields) => RoutinePlan::Struct {
            tag: node.ident.clone(),
            fields: emission_order(c, fields),
            span: has_span(c, &node.ident),
        },
        Data::Enum(variants) => {
            let mut arms: Vec<ArmPlan> = Vec::new();
            let mut i: usize = 0;
            while i < variants.len()
                invariant
                    i <= variants.len(),
                    arms@.len() == i,
                    forall|k: int| 0 <= k < i ==> arm_planned(#[trigger] arms@[k], node.ident@, variants@[k]),
                decreases variants.len() - i,
            {
                arms.push(plan_arm(&node.ident, &variants[i]));
                i = i + 1;
            }
            RoutinePlan::Enum { arms }
        },
    }
}

/// The conversion routine of one token.
pub fn plan_token(name: &String) -> (r: RoutinePlan)
    ensures
        token_planned(r, name@),
{
    RoutinePlan::Token { tag: name.clone() }
}

/// The delimiter tokens that have a routine whatever the catalog holds:
/// `Group`, `Paren`, `Brace`, `Bracket`.
pub open spec fn delimiter_token_name(j: int) -> Seq<char> {
    if j == 0 {
        "Group"@
    } else if j == 1 {
        "Paren"@
    } else if j == 2 {
        "Brace"@
    } else {
        "Bracket"@
    }
}

/// How many routines `derive_plans` adds for delimiter tokens.
pub const DELIMITER_TOKENS: usize = 4;

/// One conversion routine for every node, in catalog order, then one for every
/// token, in catalog order, then one for each delimiter token.
pub fn derive_plans(c: &GeneratorConfig, defs: &Definitions) -> (r: Vec<RoutinePlan>)
    ensures
        r@.len() == defs.types@.len() + defs.tokens@.len() + DELIMITER_TOKENS,
        forall|k: int| 0 <= k < defs.types@.len() ==> node_planned(*c, #[trigger] r@[k], defs.types@[k]),
        forall|k: int| 0 <= k < defs.tokens@.len()
            ==> token_planned(#[trigger] r@[defs.types@.len() + k], defs.tokens@[k].0@),
        forall|j: int| 0 <= j < DELIMITER_TOKENS
            ==> token_planned(#[trigger] r@[defs.types@.len() + defs.tokens@.len() + j], delimiter_token_name(j)),
{
    let mut r: Vec<RoutinePlan> = Vec::new();
    let mut i: usize = 0;
    while i < defs.types.len()
        invariant
            i <= defs.types@.len(),
            r@.len() == i,
            forall|k: int| 0 <= k < i ==> node_planned(*c, #[trigger] r@[k], defs.types@[k]),
        decreases defs.types.len() - i,
    {
        r.push(plan_node(c, &defs.types[i]));
        i = i + 1;
    }
    let n = defs.types.len();
    let mut j: usize = 0;
    while j < defs.tokens.len()
        invariant
            n == defs.types@.len(),
            j <= defs.tokens@.len(),
            r@.len() == n + j,
            forall|k: int| 0 <= k < n ==> node_planned(*c, #[trigger] r@[k], defs.types@[k]),
            forall|k: int| 0 <= k < j ==> token_planned(#[trigger] r@[n + k], defs.tokens@[k].0@),
        decreases defs.tokens.len() - j,
    {
        r.push(plan_token(&defs.tokens[j].0));
        j = j + 1;
    }
    r.push(plan_token(&text("Group")));
    r.push(plan_token(&text("Paren")));
    r.push(plan_token(&text("Brace")));
    r.push(plan_token(&text("Bracket")));
    proof {
        let base = n + defs.tokens@.len();
        assert forall|j: int| 0 <= j < DELIMITER_TOKENS
            implies token_planned(#[trigger] r@[base + j], delimiter_token_name(j)) by {
            if j == 0 {
                assert(r@[base + j] == r@[base]);
            }
        }
    }
    r
}

} // verus!
