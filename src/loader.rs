use vstd::prelude::*;
use crate::convert::text;
use crate::schema::{Type, Data, Node, Definitions, names_of, distinct_names};

verus! {

/// A structured document: the schema is read from one of these.
pub enum Json {
    Null,
    Bool(bool),
    /// A number, as written.
    Number(String),
    Text(String),
    Array(Vec<Json>),
    /// Members in document order.
    Object(Vec<(String, Json)>),
}

/// Why a document does not describe a catalog.
pub struct SchemaError {
    pub message: String,
}

/// `i` is the first member of `entries` named `key`.
pub open spec fn first_key(entries: Seq<(String, Json)>, key: Seq<char>, i: int) -> bool {
    &&& 0 <= i < entries.len()
    &&& entries[i].0@ == key
    &&& forall|m: int| 0 <= m < i ==> entries[m].0@ != key
}

/// No member of `entries` is named `key`.
pub open spec fn lacks_key(entries: Seq<(String, Json)>, key: Seq<char>) -> bool {
    forall|m: int| 0 <= m < entries.len() ==> entries[m].0@ != key
}

/// `j` is a string whose text is `s`.
pub open spec fn is_text(j: Json, s: Seq<char>) -> bool {
    j matches Json::Text(t) && t@ == s
}

/// The type that a one-member object names by its key, holding a name.
pub open spec fn named_type(key: Seq<char>, name: Seq<char>, t: Type) -> bool {
    match t {
        Type::Syn(n) => key == "syn"@ && n@ == name,
        Type::Std(n) => key == "std"@ && n@ == name,
        Type::Ext(n) => key == "proc_macro2"@ && n@ == name,
        Type::Token(n) => key == "token"@ && n@ == name,
        Type::Group(n) => key == "group"@ && n@ == name,
        _ => false,
    }
}

/// `j` describes the type `t`: an object with a single member whose key is
/// the shape (`syn`, `std`, `proc_macro2`, `token`, `group`, `punctuated`,
/// `option`, `box`, `vec`, `tuple`) and whose value is its payload.
pub open spec fn decodes_type(j: Json, t: Type) -> bool
    decreases j, t,
{
    match j {
        Json::Object(entries) => {
            entries@.len() == 1 && {
                let key = entries@[0].0@;
                let v = entries@[0].1;
                match t {
                    Type::Punctuated { element, punct } => {
                        key == "punctuated"@ && match v {
                            Json::Object(members) => {
                                (exists|i: int| first_key(members@, "element"@, i)
                                    && decodes_type(members@[i].1, *element))
                                && (exists|i: int| first_key(members@, "punct"@, i)
                                    && is_text(members@[i].1, punct@))
                            },
                            _ => false,
                        }
                    },
                    Type::Optional(inner) => key == "option"@ && decodes_type(v, *inner),
                    Type::Boxed(inner) => key == "box"@ && decodes_type(v, *inner),
                    Type::Vector(inner) => key == "vec"@ && decodes_type(v, *inner),
                    Type::Tuple(ts) => key == "tuple"@ && match v {
                        Json::Array(items) => {
                            items@.len() == ts@.len() && forall|k: int| 0 <= k < items@.len()
                                ==> decodes_type(#[trigger] items@[k], ts@[k])
                        },
                        _ => false,
                    },
                    _ => match v {
                        Json::Text(name) => named_type(key, name@, t),
                        _ => false,
                    },
                }
            }
        },
        _ => false,
    }
}


/// `j` describes the named fields `fields`: an object whose members give,
/// in order, each field's name and type, with no name twice.
pub open spec fn decodes_fields(j: Json, fields: Seq<(String, Type)>) -> bool {
    j matches Json::Object(entries) && {
        &&& entries@.len() == fields.len()
        &&& forall|k: int| 0 <= k < fields.len() ==> (#[trigger] fields[k]).0@ == entries@[k].0@
            && decodes_type(entries@[k].1, fields[k].1)
        &&& distinct_names(names_of(fields))
    }
}

/// `j` is an array that describes the types `ts`, one per item.
pub open spec fn decodes_payloads(j: Json, ts: Seq<Type>) -> bool {
    j matches Json::Array(items) && items@.len() == ts.len()
        && forall|m: int| 0 <= m < items@.len() ==> decodes_type(#[trigger] items@[m], ts[m])
}

/// `j` is an array that describes the nodes `nodes`, one per item.
pub open spec fn decodes_nodes(j: Json, nodes: Seq<Node>) -> bool {
    j matches Json::Array(items) && items@.len() == nodes.len()
        && forall|k: int| 0 <= k < items@.len() ==> decodes_node(#[trigger] items@[k], nodes[k])
}

/// `j` is an object that maps each token name to its pattern, in order.
pub open spec fn decodes_tokens(j: Json, tokens: Seq<(String, String)>) -> bool {
    j matches Json::Object(entries) && entries@.len() == tokens.len()
        && forall|k: int| 0 <= k < entries@.len() ==> (#[trigger] entries@[k]).0@ == tokens[k].0@
            && is_text(entries@[k].1, tokens[k].1@)
}

/// `j` describes the variants `variants`: an object whose members give, in
/// order, each variant's name and the array of its payload types, with no
/// name twice.
pub open spec fn decodes_variants(j: Json, variants: Seq<(String, Vec<Type>)>) -> bool {
    j matches Json::Object(entries) && {
        &&& entries@.len() == variants.len()
        &&& forall|k: int| 0 <= k < variants.len() ==> (#[trigger] variants[k]).0@ == entries@[k].0@
            && decodes_payloads(entries@[k].1, variants[k].1@)
        &&& distinct_names(names_of(variants))
    }
}

/// `i` is the first member named `fields` or `variants`.
pub open spec fn first_data_key(members: Seq<(String, Json)>, i: int) -> bool {
    &&& 0 <= i < members.len()
    &&& (members[i].0@ == "fields"@ || members[i].0@ == "variants"@)
    &&& forall|m: int| 0 <= m < i ==> members[m].0@ != "fields"@ && members[m].0@ != "variants"@
}

/// `j` describes `node`: an object with a string `ident`, and with `fields`
/// for a struct or `variants` for an enum, whichever comes first; a node with
/// neither is private.
pub open spec fn decodes_node(j: Json, node: Node) -> bool {
    j matches Json::Object(members) && {
        &&& exists|i: int| first_key(members@, "ident"@, i) && is_text(members@[i].1, node.ident@)
        &&& match node.data {
            Data::Private => lacks_key(members@, "fields"@) && lacks_key(members@, "variants"@),
            Data::Struct(fields) => exists|i: int| first_data_key(members@, i)
                && members@[i].0@ == "fields"@ && decodes_fields(members@[i].1, fields@),
            Data::Enum(variants) => exists|i: int| first_data_key(members@, i)
                && members@[i].0@ == "variants"@ && decodes_variants(members@[i].1, variants@),
        }
    }
}

/// `j` describes the catalog `defs`: an object whose `types` is an array of
/// nodes and whose `tokens` maps each token name to its pattern, in order;
/// node identifiers and token names are each unique.
pub open spec fn decodes_definitions(j: Json, defs: Definitions) -> bool {
    j matches Json::Object(members) && {
        &&& exists|i: int| first_key(members@, "types"@, i) && decodes_nodes(members@[i].1, defs.types@)
        &&& exists|i: int| first_key(members@, "tokens"@, i) && decodes_tokens(members@[i].1, defs.tokens@)
        &&& distinct_names(defs.node_names())
        &&& distinct_names(names_of(defs.tokens@))
    }
}

/// Whether no two entries share a name.
pub fn names_distinct<A>(entries: &Vec<(String, A)>) -> (r: bool)
    ensures
        r == distinct_names(names_of(entries@)),
{
    let ghost names = names_of(entries@);
    let mut i: usize = 0;
    while i < entries.len()
        invariant
            i <= entries@.len(),
            names == names_of(entries@),
            forall|a: int, b: int| 0 <= a < b < entries@.len() && a < i ==> names[a] != names[b],
        decreases entries.len() - i,
    {
        let mut j: usize = i + 1;
        while j < entries.len()
            invariant
                i < j <= entries@.len(),
                names == names_of(entries@),
                forall|a: int, b: int| 0 <= a < b < entries@.len() && a < i ==> names[a] != names[b],
                forall|b: int| i < b < j ==> names[i as int] != names[b],
            decreases entries.len() - j,
        {
            if entries[i].0 == entries[j].0 {
                assert(names[i as int] == names[j as int]);
                return false;
            }
            j = j + 1;
        }
        i = i + 1;
    }
    true
}

proof fn lemma_shape_keys_distinct()
    ensures
        "punctuated"@ != "option"@,
        "punctuated"@ != "box"@,
        "punctuated"@ != "vec"@,
        "punctuated"@ != "tuple"@,
        "punctuated"@ != "syn"@,
        "punctuated"@ != "std"@,
        "punctuated"@ != "proc_macro2"@,
        "punctuated"@ != "token"@,
        "punctuated"@ != "group"@,
        "option"@ != "box"@,
        "option"@ != "vec"@,
        "option"@ != "tuple"@,
        "option"@ != "syn"@,
        "option"@ != "std"@,
        "option"@ != "proc_macro2"@,
        "option"@ != "token"@,
        "option"@ != "group"@,
        "box"@ != "vec"@,
        "box"@ != "tuple"@,
        "box"@ != "syn"@,
        "box"@ != "std"@,
        "box"@ != "proc_macro2"@,
        "box"@ != "token"@,
        "box"@ != "group"@,
        "vec"@ != "tuple"@,
        "vec"@ != "syn"@,
        "vec"@ != "std"@,
        "vec"@ != "proc_macro2"@,
        "vec"@ != "token"@,
        "vec"@ != "group"@,
        "tuple"@ != "syn"@,
        "tuple"@ != "std"@,
        "tuple"@ != "proc_macro2"@,
        "tuple"@ != "token"@,
        "tuple"@ != "group"@,
        "syn"@ != "std"@,
        "syn"@ != "proc_macro2"@,
        "syn"@ != "token"@,
        "syn"@ != "group"@,
        "std"@ != "proc_macro2"@,
        "std"@ != "token"@,
        "std"@ != "group"@,
        "proc_macro2"@ != "token"@,
        "proc_macro2"@ != "group"@,
        "token"@ != "group"@,
{
    reveal_strlit("punctuated");
    reveal_strlit("option");
    reveal_strlit("box");
    reveal_strlit("vec");
    reveal_strlit("tuple");
    reveal_strlit("syn");
    reveal_strlit("std");
    reveal_strlit("proc_macro2");
    reveal_strlit("token");
    reveal_strlit("group");
    assert("punctuated"@[0] != "option"@[0]);
    assert("box"@[0] != "vec"@[0]);
    assert("syn"@[1] != "std"@[1]);
    assert("tuple"@[1] != "token"@[1]);
    assert("punctuated"@[1] != "proc_macro2"@[1]);
    assert("proc_macro2"@[0] != "group"@[0]);
}

fn malformed(what: &str) -> (r: SchemaError) {
    SchemaError { message: text(what) }
}

/// The first member of `entries` named `key`.
pub fn find_key(entries: &Vec<(String, Json)>, key: &str) -> (r: Option<usize>)
    ensures
        r matches Some(i) ==> first_key(entries@, key@, i as int),
        r is None ==> lacks_key(entries@, key@),
{
    let k = text(key);
    let mut i: usize = 0;
    while i < entries.len()
        invariant
            i <= entries@.len(),
            k@ == key@,
            forall|m: int| 0 <= m < i ==> entries@[m].0@ != key@,
        decreases entries.len() - i,
    {
        if entries[i].0 == k {
            return Some(i);
        }
        i = i + 1;
    }
    None
}

/// The text of a string.
pub fn text_of(j: &Json) -> (r: Option<String>)
    ensures
        r matches Some(s) ==> is_text(*j, s@),
        r is None ==> !(j is Text),
{
    match j {
        Json::Text(s) => Some(s.clone()),
        _ => None,
    }
}

/// Reads a type from its description.
pub fn decode_type(j: &Json) -> (r: Result<Type, SchemaError>)
    ensures
        r matches Ok(t) ==> decodes_type(*j, t),
        r is Err ==> forall|t: Type| !decodes_type(*j, t),
    decreases j,
{
    let entries = match j {
        Json::Object(entries) => entries,
        _ => return Err(malformed("a type is not an object")),
    };
    if entries.len() != 1 {
        return Err(malformed("a type object does not have exactly one member"));
    }
    proof {
        vstd::std_specs::vec::axiom_vec_index_decreases(*entries, 0);
    }
    let key = &entries[0].0;
    let v = &entries[0].1;
    proof {
        lemma_shape_keys_distinct();
    }
    if *key == text("punctuated") {
        let members = match v {
            Json::Object(members) => members,
            _ => {
                assert forall|t: Type| !decodes_type(*j, t) by {
                    assert(key@ == "punctuated"@);
                }
                return Err(malformed("a separated list is not an object"));
            },
        };
        let e = match find_key(members, "element") {
            Some(e) => e,
            None => {
                assert forall|t: Type| !decodes_type(*j, t) by {
                    assert(key@ == "punctuated"@);
                    if t is Punctuated {
                        assert(!exists|i: int| first_key(members@, "element"@, i));
                    }
                }
                return Err(malformed("a separated list has no element"));
            },
        };
        let p = match find_key(members, "punct") {
            Some(p) => p,
            None => return Err(malformed("a separated list has no punct")),
        };
        proof {
            vstd::std_specs::vec::axiom_vec_index_decreases(*members, e as int);
        }
        let element = match decode_type(&members[e].1) {
            Ok(t) => t,
            Err(err) => {
                assert forall|t: Type| !decodes_type(*j, t) by {
                    if t is Punctuated && decodes_type(*j, t) {
                        let i = choose|i: int| first_key(members@, "element"@, i)
                            && decodes_type(members@[i].1, *(t->Punctuated_element));
                        if i < e {
                            assert(members@[i].0@ != "element"@);
                        } else if i > e {
                            assert(members@[e as int].0@ != "element"@);
                        }
                    }
                }
                return Err(err);
            },
        };
        let punct = match text_of(&members[p].1) {
            Some(s) => s,
            None => return Err(malformed("a punct is not a string")),
        };
        Ok(Type::Punctuated { element: Box::new(element), punct })
    } else if *key == text("option") || *key == text("box") || *key == text("vec") {
        let inner = match decode_type(v) {
            Ok(t) => Box::new(t),
            Err(err) => {
                assert forall|t: Type| !decodes_type(*j, t) by {
                    if t is Optional {
                        assert(!decodes_type(*v, *(t->Optional_0)));
                    } else if t is Boxed {
                        assert(!decodes_type(*v, *(t->Boxed_0)));
                    } else if t is Vector {
                        assert(!decodes_type(*v, *(t->Vector_0)));
                    }
                }
                return Err(err);
            },
        };
        if *key == text("option") {
            Ok(Type::Optional(inner))
        } else if *key == text("box") {
            Ok(Type::Boxed(inner))
        } else {
            Ok(Type::Vector(inner))
        }
    } else if *key == text("tuple") {
        match v {
            Json::Array(items) => match decode_type_list(items) {
                Ok(ts) => Ok(Type::Tuple(ts)),
                Err(err) => {
                    assert forall|t: Type| !decodes_type(*j, t) by {
                        if t is Tuple && (t->Tuple_0)@.len() == items@.len() {
                            let ts = (t->Tuple_0)@;
                            assert(exists|k: int| 0 <= k < items@.len() && !decodes_type(items@[k], ts[k]));
                        }
                    }
                    Err(err)
                },
            },
            _ => Err(malformed("a tuple is not an array")),
        }
    } else {
        let name = match text_of(v) {
            Some(s) => s,
            None => return Err(malformed("a type name is not a string")),
        };
        if *key == text("syn") {
            Ok(Type::Syn(name))
        } else if *key == text("std") {
            Ok(Type::Std(name))
        } else if *key == text("proc_macro2") {
            Ok(Type::Ext(name))
        } else if *key == text("token") {
            Ok(Type::Token(name))
        } else if *key == text("group") {
            Ok(Type::Group(name))
        } else {
            Err(malformed("unknown type shape"))
        }
    }
}

/// Reads a list of types, one per item.
pub fn decode_type_list(items: &Vec<Json>) -> (r: Result<Vec<Type>, SchemaError>)
    ensures
        r matches Ok(ts) ==> ts@.len() == items@.len()
            && forall|k: int| 0 <= k < items@.len() ==> decodes_type(#[trigger] items@[k], ts@[k]),
        r is Err ==> forall|ts: Seq<Type>| #[trigger] ts.len() == items@.len()
            ==> exists|k: int| 0 <= k < items@.len() && !decodes_type(#[trigger] items@[k], ts[k]),
    decreases items,
{
    let mut ts: Vec<Type> = Vec::new();
    let mut i: usize = 0;
    while i < items.len()
        invariant
            i <= items@.len(),
            ts@.len() == i,
            forall|k: int| 0 <= k < i ==> decodes_type(#[trigger] items@[k], ts@[k]),
        decreases items.len() - i,
    {
        proof {
            vstd::std_specs::vec::axiom_vec_index_decreases(*items, i as int);
        }
        match decode_type(&items[i]) {
            Ok(t) => ts.push(t),
            Err(e) => {
                assert forall|ts: Seq<Type>| #[trigger] ts.len() == items@.len()
                    implies exists|k: int| 0 <= k < items@.len() && !decodes_type(#[trigger] items@[k], ts[k]) by {
                    assert(!decodes_type(items@[i as int], ts[i as int]));
                }
                return Err(e);
            },
        }
        i = i + 1;
    }
    Ok(ts)
}


/// Reads named fields from their description.
pub fn decode_fields(j: &Json) -> (r: Result<Vec<(String, Type)>, SchemaError>)
    ensures
        r matches Ok(fields) ==> decodes_fields(*j, fields@),
        r is Err ==> forall|fields: Seq<(String, Type)>| !decodes_fields(*j, fields),
{
    let entries = match j {
        Json::Object(entries) => entries,
        _ => return Err(malformed("fields are not an object")),
    };
    let mut fields: Vec<(String, Type)> = Vec::new();
    let mut i: usize = 0;
    while i < entries.len()
        invariant
            *j == Json::Object(*entries),
            i <= entries@.len(),
            fields@.len() == i,
            forall|k: int| 0 <= k < i ==> (#[trigger] fields@[k]).0@ == entries@[k].0@
                && decodes_type(entries@[k].1, fields@[k].1),
        decreases entries.len() - i,
    {
        match decode_type(&entries[i].1) {
            Ok(t) => fields.push((entries[i].0.clone(), t)),
            Err(e) => {
                assert forall|fs: Seq<(String, Type)>| !decodes_fields(*j, fs) by {
                    if decodes_fields(*j, fs) {
                        assert(decodes_type(entries@[i as int].1, fs[i as int].1));
                    }
                }
                return Err(e);
            },
        }
        i = i + 1;
    }
    if !names_distinct(&fields) {
        assert forall|fs: Seq<(String, Type)>| !decodes_fields(*j, fs) by {
            if decodes_fields(*j, fs) {
                assert(names_of(fs) =~= names_of(fields@));
            }
        }
        return Err(malformed("a field name occurs twice"));
    }
    Ok(fields)
}


/// Reads payload types from an array.
pub fn decode_payloads(j: &Json) -> (r: Result<Vec<Type>, SchemaError>)
    ensures
        r matches Ok(ts) ==> decodes_payloads(*j, ts@),
        r is Err ==> forall|ts: Seq<Type>| !decodes_payloads(*j, ts),
{
    match j {
        Json::Array(items) => {
            let r = decode_type_list(items);
            proof {
                if r is Err {
                    assert forall|ts: Seq<Type>| !decodes_payloads(*j, ts) by {
                        if decodes_payloads(*j, ts) {
                            assert(ts.len() == items@.len());
                        }
                    }
                }
            }
            r
        },
        _ => Err(malformed("payloads are not an array")),
    }
}

/// Reads variants from their description.
pub fn decode_variants(j: &Json) -> (r: Result<Vec<(String, Vec<Type>)>, SchemaError>)
    ensures
        r matches Ok(variants) ==> decodes_variants(*j, variants@),
        r is Err ==> forall|variants: Seq<(String, Vec<Type>)>| !decodes_variants(*j, variants),
{
    let entries = match j {
        Json::Object(entries) => entries,
        _ => return Err(malformed("variants are not an object")),
    };
    let mut variants: Vec<(String, Vec<Type>)> = Vec::new();
    let mut i: usize = 0;
    while i < entries.len()
        invariant
            *j == Json::Object(*entries),
            i <= entries@.len(),
            variants@.len() == i,
            forall|k: int| 0 <= k < i ==> (#[trigger] variants@[k]).0@ == entries@[k].0@
                && decodes_payloads(entries@[k].1, variants@[k].1@),
        decreases entries.len() - i,
    {
        match decode_payloads(&entries[i].1) {
            Ok(ts) => variants.push((entries[i].0.clone(), ts)),
            Err(e) => {
                assert forall|vs: Seq<(String, Vec<Type>)>| !decodes_variants(*j, vs) by {
                    if decodes_variants(*j, vs) {
                        assert(decodes_payloads(entries@[i as int].1, vs[i as int].1@));
                    }
                }
                return Err(e);
            },
        }
        i = i + 1;
    }
    if !names_distinct(&variants) {
        assert forall|vs: Seq<(String, Vec<Type>)>| !decodes_variants(*j, vs) by {
            if decodes_variants(*j, vs) {
                assert(names_of(vs) =~= names_of(variants@));
            }
        }
        return Err(malformed("a variant name occurs twice"));
    }
    Ok(variants)
}

/// The first member named `fields` or `variants`.
fn find_data_key(members: &Vec<(String, Json)>) -> (r: Option<usize>)
    ensures
        r matches Some(i) ==> first_data_key(members@, i as int),
        r is None ==> lacks_key(members@, "fields"@) && lacks_key(members@, "variants"@),
{
    let f = text("fields");
    let v = text("variants");
    let mut i: usize = 0;
    while i < members.len()
        invariant
            i <= members@.len(),
            f@ == "fields"@,
            v@ == "variants"@,
            forall|m: int| 0 <= m < i ==> members@[m].0@ != "fields"@ && members@[m].0@ != "variants"@,
        decreases members.len() - i,
    {
        if members[i].0 == f || members[i].0 == v {
            return Some(i);
        }
        i = i + 1;
    }
    None
}

proof fn lemma_first_data_key_unique(members: Seq<(String, Json)>, a: int, b: int)
    requires
        first_data_key(members, a),
        first_data_key(members, b),
    ensures
        a == b,
{
    if a < b {
        assert(members[a].0@ != "fields"@ && members[a].0@ != "variants"@);
    } else if b < a {
        assert(members[b].0@ != "fields"@ && members[b].0@ != "variants"@);
    }
}

proof fn lemma_first_key_unique(members: Seq<(String, Json)>, key: Seq<char>, a: int, b: int)
    requires
        first_key(members, key, a),
        first_key(members, key, b),
    ensures
        a == b,
{
    if a < b {
        assert(members[a].0@ != key);
    } else if b < a {
        assert(members[b].0@ != key);
    }
}

proof fn lemma_node_ident_determined(j: Json, a: Node, b: Node)
    requires
        decodes_node(j, a),
        decodes_node(j, b),
    ensures
        a.ident@ == b.ident@,
{
    let members = j->Object_0;
    let i = choose|i: int| first_key(members@, "ident"@, i) && is_text(members@[i].1, a.ident@);
    let k = choose|k: int| first_key(members@, "ident"@, k) && is_text(members@[k].1, b.ident@);
    lemma_first_key_unique(members@, "ident"@, i, k);
}

/// Reads a node from its description.
pub fn decode_node(j: &Json) -> (r: Result<Node, SchemaError>)
    ensures
        r matches Ok(node) ==> decodes_node(*j, node),
        r is Err ==> forall|node: Node| !decodes_node(*j, node),
{
    let members = match j {
        Json::Object(members) => members,
        _ => return Err(malformed("a node is not an object")),
    };
    let ident = match find_key(members, "ident") {
        Some(i) => match text_of(&members[i].1) {
            Some(s) => s,
            None => {
                assert forall|node: Node| !decodes_node(*j, node) by {
                    if decodes_node(*j, node) {
                        let k = choose|k: int| first_key(members@, "ident"@, k)
                            && is_text(members@[k].1, node.ident@);
                        lemma_first_key_unique(members@, "ident"@, i as int, k);
                    }
                }
                return Err(malformed("a node's ident is not a string"));
            },
        },
        None => return Err(malformed("a node has no ident")),
    };
    proof {
        reveal_strlit("fields");
        reveal_strlit("variants");
        assert("fields"@[0] != "variants"@[0]);
    }
    let data = match find_data_key(members) {
        None => Data::Private,
        Some(i) => {
            if members[i].0 == text("fields") {
                match decode_fields(&members[i].1) {
                    Ok(fields) => Data::Struct(fields),
                    Err(e) => {
                        assert forall|node: Node| !decodes_node(*j, node) by {
                            if decodes_node(*j, node) && node.data is Struct {
                                let k = choose|k: int| first_data_key(members@, k)
                                    && members@[k].0@ == "fields"@
                                    && decodes_fields(members@[k].1, (node.data->Struct_0)@);
                                lemma_first_data_key_unique(members@, i as int, k);
                            }
                        }
                        return Err(e);
                    },
                }
            } else {
                match decode_variants(&members[i].1) {
                    Ok(variants) => Data::Enum(variants),
                    Err(e) => {
                        assert forall|node: Node| !decodes_node(*j, node) by {
                            if decodes_node(*j, node) && node.data is Enum {
                                let k = choose|k: int| first_data_key(members@, k)
                                    && members@[k].0@ == "variants"@
                                    && decodes_variants(members@[k].1, (node.data->Enum_0)@);
                                lemma_first_data_key_unique(members@, i as int, k);
                            }
                        }
                        return Err(e);
                    },
                }
            }
        },
    };
    Ok(Node { ident, data })
}


/// Reads an array of nodes.
pub fn decode_nodes(j: &Json) -> (r: Result<Vec<Node>, SchemaError>)
    ensures
        r matches Ok(nodes) ==> decodes_nodes(*j, nodes@),
        r is Err ==> forall|nodes: Seq<Node>| !decodes_nodes(*j, nodes),
{
    let items = match j {
        Json::Array(items) => items,
        _ => return Err(malformed("types are not an array")),
    };
    let mut nodes: Vec<Node> = Vec::new();
    let mut i: usize = 0;
    while i < items.len()
        invariant
            *j == Json::Array(*items),
            i <= items@.len(),
            nodes@.len() == i,
            forall|k: int| 0 <= k < i ==> decodes_node(#[trigger] items@[k], nodes@[k]),
        decreases items.len() - i,
    {
        match decode_node(&items[i]) {
            Ok(n) => nodes.push(n),
            Err(e) => {
                assert forall|ns: Seq<Node>| !decodes_nodes(*j, ns) by {
                    if decodes_nodes(*j, ns) {
                        assert(decodes_node(items@[i as int], ns[i as int]));
                    }
                }
                return Err(e);
            },
        }
        i = i + 1;
    }
    Ok(nodes)
}

/// Reads the token catalog: each token's name and pattern.
pub fn decode_tokens(j: &Json) -> (r: Result<Vec<(String, String)>, SchemaError>)
    ensures
        r matches Ok(tokens) ==> decodes_tokens(*j, tokens@),
        r is Err ==> forall|tokens: Seq<(String, String)>| !decodes_tokens(*j, tokens),
{
    let entries = match j {
        Json::Object(entries) => entries,
        _ => return Err(malformed("tokens are not an object")),
    };
    let mut tokens: Vec<(String, String)> = Vec::new();
    let mut i: usize = 0;
    while i < entries.len()
        invariant
            *j == Json::Object(*entries),
            i <= entries@.len(),
            tokens@.len() == i,
            forall|k: int| 0 <= k < i ==> (#[trigger] entries@[k]).0@ == tokens@[k].0@
                && is_text(entries@[k].1, tokens@[k].1@),
        decreases entries.len() - i,
    {
        match text_of(&entries[i].1) {
            Some(pattern) => tokens.push((entries[i].0.clone(), pattern)),
            None => {
                assert forall|ts: Seq<(String, String)>| !decodes_tokens(*j, ts) by {
                    if decodes_tokens(*j, ts) {
                        assert(is_text(entries@[i as int].1, ts[i as int].1@));
                    }
                }
                return Err(malformed("a token pattern is not a string"));
            },
        }
        i = i + 1;
    }
    Ok(tokens)
}

/// Whether no two nodes share an identifier.
fn idents_distinct(nodes: &Vec<Node>) -> (r: bool)
    ensures
        r == distinct_names(nodes@.map_values(|n: Node| n.ident@)),
{
    let ghost names = nodes@.map_values(|n: Node| n.ident@);
    let mut i: usize = 0;
    while i < nodes.len()
        invariant
            i <= nodes@.len(),
            names == nodes@.map_values(|n: Node| n.ident@),
            forall|a: int, b: int| 0 <= a < b < nodes@.len() && a < i ==> names[a] != names[b],
        decreases nodes.len() - i,
    {
        let mut j: usize = i + 1;
        while j < nodes.len()
            invariant
                i < j <= nodes@.len(),
                names == nodes@.map_values(|n: Node| n.ident@),
                forall|a: int, b: int| 0 <= a < b < nodes@.len() && a < i ==> names[a] != names[b],
                forall|b: int| i < b < j ==> names[i as int] != names[b],
            decreases nodes.len() - j,
        {
            if nodes[i].ident == nodes[j].ident {
                assert(names[i as int] == names[j as int]);
                return false;
            }
            j = j + 1;
        }
        i = i + 1;
    }
    true
}

/// Reads the catalog from a document. It fails, with nothing produced, when
/// the document does not describe one; what it produces is well formed.
pub fn load_definitions(doc: &Json) -> (r: Result<Definitions, SchemaError>)
    ensures
        r matches Ok(defs) ==> decodes_definitions(*doc, defs) && defs.wf(),
        r is Err ==> forall|defs: Definitions| !decodes_definitions(*doc, defs),
{
    let members = match doc {
        Json::Object(members) => members,
        _ => return Err(malformed("the document is not an object")),
    };
    let ti = match find_key(members, "types") {
        Some(i) => i,
        None => return Err(malformed("the document has no types")),
    };
    let types = match decode_nodes(&members[ti].1) {
        Ok(t) => t,
        Err(e) => {
            assert forall|d: Definitions| !decodes_definitions(*doc, d) by {
                if decodes_definitions(*doc, d) {
                    let k = choose|k: int| first_key(members@, "types"@, k)
                        && decodes_nodes(members@[k].1, d.types@);
                    lemma_first_key_unique(members@, "types"@, ti as int, k);
                }
            }
            return Err(e);
        },
    };
    let ki = match find_key(members, "tokens") {
        Some(i) => i,
        None => return Err(malformed("the document has no tokens")),
    };
    let tokens = match decode_tokens(&members[ki].1) {
        Ok(t) => t,
        Err(e) => {
            assert forall|d: Definitions| !decodes_definitions(*doc, d) by {
                if decodes_definitions(*doc, d) {
                    let k = choose|k: int| first_key(members@, "tokens"@, k)
                        && decodes_tokens(members@[k].1, d.tokens@);
                    lemma_first_key_unique(members@, "tokens"@, ki as int, k);
                }
            }
            return Err(e);
        },
    };
    let defs = Definitions { types, tokens };
    if !idents_distinct(&defs.types) || !names_distinct(&defs.tokens) {
        assert forall|d: Definitions| !decodes_definitions(*doc, d) by {
            if decodes_definitions(*doc, d) {
                let k = choose|k: int| first_key(members@, "types"@, k)
                    && decodes_nodes(members@[k].1, d.types@);
                lemma_first_key_unique(members@, "types"@, ti as int, k);
                let m = choose|m: int| first_key(members@, "tokens"@, m)
                    && decodes_tokens(members@[m].1, d.tokens@);
                lemma_first_key_unique(members@, "tokens"@, ki as int, m);
                let tj = members@[ti as int].1;
                assert forall|x: int| 0 <= x < d.types@.len() implies d.types@[x].ident@ == defs.types@[x].ident@ by {
                    let items = tj->Array_0;
                    assert(decodes_node(items@[x], d.types@[x]));
                    assert(decodes_node(items@[x], defs.types@[x]));
                    lemma_node_ident_determined(items@[x], d.types@[x], defs.types@[x]);
                }
                assert(d.node_names() =~= defs.node_names());
                let kj = members@[ki as int].1;
                assert forall|x: int| 0 <= x < d.tokens@.len() implies d.tokens@[x].0@ == defs.tokens@[x].0@ by {
                    let entries = kj->Object_0;
                    assert(entries@[x].0@ == d.tokens@[x].0@);
                    assert(entries@[x].0@ == defs.tokens@[x].0@);
                }
                assert(names_of(d.tokens@) =~= names_of(defs.tokens@));
            }
        }
        return Err(malformed("a node or token name occurs twice"));
    }
    proof {
        assert(decodes_definitions(*doc, defs));
        assert forall|i: int| 0 <= i < defs.types@.len() implies #[trigger] defs.types@[i].data.wf() by {
            assert(decodes_node(match members@[ti as int].1 { Json::Array(items) => items@[i], _ => Json::Null }, defs.types@[i]));
        }
    }
    Ok(defs)
}

} // verus!
