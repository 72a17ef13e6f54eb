use vstd::prelude::*;
use crate::convert::{SourceSpan, span_value, text, is_span};
use crate::value::DynValue;

verus! {

/// The delimiter of a group.
pub enum Delimiter {
    Parenthesis,
    Brace,
    Bracket,
    /// An invisible delimiter.
    Invisible,
}

/// Whether a punctuation mark is joined to the next one.
pub enum Spacing {
    Alone,
    Joint,
}

/// One item of a token sequence.
pub enum TokenTree {
    Group { delimiter: Delimiter, stream: Vec<TokenTree>, span: SourceSpan },
    Ident { text: String, span: SourceSpan },
    Punct { ch: char, spacing: Spacing, span: SourceSpan },
    Literal { text: String, span: SourceSpan },
}

pub open spec fn delimiter_tag(d: Delimiter) -> Seq<char> {
    match d {
        Delimiter::Parenthesis => "Delimiter::Parenthesis"@,
        Delimiter::Brace => "Delimiter::Brace"@,
        Delimiter::Bracket => "Delimiter::Bracket"@,
        Delimiter::Invisible => "Delimiter::None"@,
    }
}

pub open spec fn spacing_tag(s: Spacing) -> Seq<char> {
    match s {
        Spacing::Alone => "Spacing::Alone"@,
        Spacing::Joint => "Spacing::Joint"@,
    }
}

/// The tag a token tree converts to.
pub open spec fn tree_tag(t: TokenTree) -> Seq<char> {
    match t {
        TokenTree::Group { .. } => "Group"@,
        TokenTree::Ident { .. } => "Ident"@,
        TokenTree::Punct { .. } => "Punct"@,
        TokenTree::Literal { .. } => "Literal"@,
    }
}

/// `f` is a field named `name`.
pub open spec fn named(f: (String, DynValue), name: Seq<char>) -> bool {
    f.0@ == name
}

/// `f` is a field named `name` that holds the text `s`.
pub open spec fn text_field(f: (String, DynValue), name: Seq<char>, s: Seq<char>) -> bool {
    &&& f.0@ == name
    &&& f.1 matches DynValue::Text(t) && t@ == s
}

/// `f` is the field `span` that holds `sp`.
pub open spec fn span_field_of(f: (String, DynValue), sp: SourceSpan) -> bool {
    f.0@ == "span"@ && is_span(f.1, sp)
}

/// `v` is an object tagged `tag` with no other field.
pub open spec fn tag_only(v: DynValue, tag: Seq<char>) -> bool {
    v matches DynValue::Object { tag: t, fields } && t@ == tag && fields@.len() == 0
}

/// `v` is the conversion of the token tree `t`: a group with its delimiter,
/// converted stream and span; an identifier or a literal with its text and
/// span; a punctuation mark with its character, spacing and span.
pub open spec fn tree_converted(t: TokenTree, v: DynValue) -> bool
    decreases t,
{
    match v {
        DynValue::Object { tag, fields } => {
            &&& tag@ == tree_tag(t)
            &&& match t {
                TokenTree::Group { delimiter, stream, span } => {
                    &&& fields@.len() == 3
                    &&& named(fields@[0], "delimiter"@) && tag_only(fields@[0].1, delimiter_tag(delimiter))
                    &&& named(fields@[1], "stream"@) && stream_converted(stream@, fields@[1].1)
                    &&& span_field_of(fields@[2], span)
                },
                TokenTree::Punct { ch, spacing, span } => {
                    &&& fields@.len() == 3
                    &&& text_field(fields@[0], "as_char"@, seq![ch])
                    &&& named(fields@[1], "spacing"@) && tag_only(fields@[1].1, spacing_tag(spacing))
                    &&& span_field_of(fields@[2], span)
                },
                TokenTree::Ident { text, span } => {
                    fields@.len() == 2 && text_field(fields@[0], "to_string"@, text@) && span_field_of(fields@[1], span)
                },
                TokenTree::Literal { text, span } => {
                    fields@.len() == 2 && text_field(fields@[0], "to_string"@, text@) && span_field_of(fields@[1], span)
                },
            }
        },
        _ => false,
    }
}

/// `v` is the conversion of the token sequence `s`: a sequence tagged
/// `TokenStream` whose item `k` is the conversion of tree `k`.
pub open spec fn stream_converted(s: Seq<TokenTree>, v: DynValue) -> bool
    decreases s,
{
    match v {
        DynValue::Indexed { tag, fields, items } => {
            &&& tag@ == "TokenStream"@
            &&& fields@.len() == 0
            &&& items@.len() == s.len()
            &&& forall|k: int| 0 <= k < s.len() ==> tree_converted(#[trigger] s[k], items@[k])
        },
        _ => false,
    }
}

/// `{ _type: "Delimiter::..." }`.
pub fn delimiter_value(d: &Delimiter) -> (r: DynValue)
    ensures
        r matches DynValue::Object { tag, fields } && tag@ == delimiter_tag(*d) && fields@.len() == 0,
{
    let tag = match d {
        Delimiter::Parenthesis => text("Delimiter::Parenthesis"),
        Delimiter::Brace => text("Delimiter::Brace"),
        Delimiter::Bracket => text("Delimiter::Bracket"),
        Delimiter::Invisible => text("Delimiter::None"),
    };
    DynValue::Object { tag, fields: Vec::new() }
}

/// `{ _type: "Spacing::..." }`.
pub fn spacing_value(s: &Spacing) -> (r: DynValue)
    ensures
        r matches DynValue::Object { tag, fields } && tag@ == spacing_tag(*s) && fields@.len() == 0,
{
    let tag = match s {
        Spacing::Alone => text("Spacing::Alone"),
        Spacing::Joint => text("Spacing::Joint"),
    };
    DynValue::Object { tag, fields: Vec::new() }
}

/// Relies on char's `ToString`: the text of one character.
#[verifier::external_body]
fn char_text(c: char) -> (r: String)
    ensures
        r@ == seq![c],
{
    c.to_string()
}

/// A character converts to the string it encodes.
pub fn char_value(c: char) -> (r: DynValue)
    ensures
        r matches DynValue::Text(t) && t@ == seq![c],
{
    DynValue::Text(char_text(c))
}

/// A token tree: a group with its delimiter, stream and span; an identifier
/// or a literal with its text and span; a punctuation mark with its
/// character, spacing and span.
pub fn tree_value(t: &TokenTree) -> (r: DynValue)
    ensures
        tree_converted(*t, r),
    decreases t,
{
    let mut fields: Vec<(String, DynValue)> = Vec::new();
    match t {
        TokenTree::Group { delimiter, stream, span } => {
            fields.push((text("delimiter"), delimiter_value(delimiter)));
            fields.push((text("stream"), stream_value(stream)));
            fields.push((text("span"), span_value(span)));
            DynValue::Object { tag: text("Group"), fields }
        },
        TokenTree::Ident { text: s, span } => {
            fields.push((text("to_string"), DynValue::Text(s.clone())));
            fields.push((text("span"), span_value(span)));
            DynValue::Object { tag: text("Ident"), fields }
        },
        TokenTree::Punct { ch, spacing, span } => {
            fields.push((text("as_char"), char_value(*ch)));
            fields.push((text("spacing"), spacing_value(spacing)));
            fields.push((text("span"), span_value(span)));
            DynValue::Object { tag: text("Punct"), fields }
        },
        TokenTree::Literal { text: s, span } => {
            fields.push((text("to_string"), DynValue::Text(s.clone())));
            fields.push((text("span"), span_value(span)));
            DynValue::Object { tag: text("Literal"), fields }
        },
    }
}

/// A token sequence converts to a sequence tagged `TokenStream` of its
/// trees' values, one per tree.
pub fn stream_value(s: &Vec<TokenTree>) -> (r: DynValue)
    ensures
        stream_converted(s@, r),
    decreases s,
{
    let mut items: Vec<DynValue> = Vec::new();
    let mut i: usize = 0;
    while i < s.len()
        invariant
            i <= s@.len(),
            items@.len() == i,
            forall|k: int| 0 <= k < i ==> tree_converted(#[trigger] s@[k], items@[k]),
        decreases s.len() - i,
    {
        proof {
            vstd::std_specs::vec::axiom_vec_index_decreases(*s, i as int);
        }
        items.push(tree_value(&s[i]));
        i = i + 1;
    }
    DynValue::Indexed { tag: text("TokenStream"), fields: Vec::new(), items }
}

} // verus!
