use vstd::prelude::*;

verus! {

/// The shape of a field or payload type in the node catalog.
pub enum Type {
    /// A node declared in the catalog.
    Syn(String),
    /// A primitive or standard type.
    Std(String),
    /// A type provided by the token-level runtime.
    Ext(String),
    /// A token declared in the token catalog.
    Token(String),
    /// A delimiter group.
    Group(String),
    /// A separated list of elements.
    Punctuated { element: Box<Type>, punct: String },
    Optional(Box<Type>),
    Boxed(Box<Type>),
    Vector(Box<Type>),
    Tuple(Vec<Type>),
}

/// What a node holds.
pub enum Data {
    /// An opaque node exposing a scalar value and a position.
    Private,
    /// Named fields, in declaration order.
    Struct(Vec<(String, Type)>),
    /// Named variants with their payload types, in declaration order.
    Enum(Vec<(String, Vec<Type>)>),
}

pub struct Node {
    pub ident: String,
    pub data: Data,
}

/// The whole catalog: nodes in order, and token names with their raw patterns.
pub struct Definitions {
    pub types: Vec<Node>,
    pub tokens: Vec<(String, String)>,
}

/// The names of an ordered list of named entries.
pub open spec fn names_of<A>(entries: Seq<(String, A)>) -> Seq<Seq<char>> {
    entries.map_values(|e: (String, A)| e.0@)
}

/// No name occurs twice.
pub open spec fn distinct_names(names: Seq<Seq<char>>) -> bool {
    forall|i: int, j: int| 0 <= i < j < names.len() ==> names[i] != names[j]
}

impl Data {
    pub open spec fn wf(&self) -> bool {
        match self {
            Data::Private => true,
            Data::Struct(fields) => distinct_names(names_of(fields@)),
            Data::Enum(variants) => distinct_names(names_of(variants@)),
        }
    }
}

impl Definitions {
    /// The identifiers of the declared nodes.
    pub open spec fn node_names(&self) -> Seq<Seq<char>> {
        self.types@.map_values(|n: Node| n.ident@)
    }

    /// Node identifiers are unique, token names are unique, and each node's
    /// fields or variants have unique names.
    pub open spec fn wf(&self) -> bool {
        &&& distinct_names(self.node_names())
        &&& distinct_names(names_of(self.tokens@))
        &&& forall|i: int| 0 <= i < self.types@.len() ==> #[trigger] self.types@[i].data.wf()
    }
}

} // verus!
