use vstd::prelude::*;
use vstd::string::StringExecFns;
use crate::value::{DynValue, Number, number_from_u64, number_from_u32, double_value};

verus! {

/// A position in source text: `line` counts from 1, `column` from 0.
pub struct LineColumn {
    pub line: usize,
    pub column: usize,
}

/// The stretch of source text that a node or token covers.
pub struct SourceSpan {
    pub start: LineColumn,
    pub end: LineColumn,
}

/// `v` is the number `x`.
pub open spec fn is_number(v: DynValue, x: nat) -> bool {
    v matches DynValue::Num(n) && n.value() == x
}

/// A string literal as a `String`.
pub fn text(s: &str) -> (r: String)
    ensures
        r@ == s@,
{
    String::from_str(s)
}

pub fn bool_value(b: bool) -> (r: DynValue)
    ensures
        r == DynValue::Bool(b),
{
    DynValue::Bool(b)
}

/// A 32-bit unsigned integer converts exactly.
pub fn u32_value(x: u32) -> (r: DynValue)
    ensures
        r matches DynValue::Num(n) && n.value() == x as nat,
{
    DynValue::Num(number_from_u32(x))
}

/// A 64-bit unsigned integer converts through a double: exact below `2^53`,
/// rounded to the nearest double above.
pub fn u64_value(x: u64) -> (r: DynValue)
    ensures
        r matches DynValue::Num(n) && n.value() == double_value(x as nat),
{
    DynValue::Num(number_from_u64(x))
}

/// A pointer-sized integer takes the same path as a 64-bit one.
pub fn usize_value(x: usize) -> (r: DynValue)
    ensures
        r matches DynValue::Num(n) && n.value() == double_value(x as nat),
{
    DynValue::Num(number_from_u64(x as u64))
}

/// A byte takes the same numeric path, on which it is exact.
pub fn u8_value(x: u8) -> (r: DynValue)
    ensures
        r matches DynValue::Num(n) && n.value() == double_value(x as nat),
{
    DynValue::Num(number_from_u64(x as u64))
}

/// A string passes through unchanged.
pub fn str_value(s: &str) -> (r: DynValue)
    ensures
        r matches DynValue::Text(t) && t@ == s@,
{
    DynValue::Text(text(s))
}

/// `v` is `{ _type: "LineColumn", line, column }` for `lc`, each number cut
/// to 32 bits.
pub open spec fn is_line_column(v: DynValue, lc: LineColumn) -> bool {
    v matches DynValue::Object { tag, fields } && tag@ == "LineColumn"@ && fields@.len() == 2
        && fields@[0].0@ == "line"@ && is_number(fields@[0].1, (lc.line as u32) as nat)
        && fields@[1].0@ == "column"@ && is_number(fields@[1].1, (lc.column as u32) as nat)
}

/// `v` is `{ _type: "Span", start, end }` for `sp`.
pub open spec fn is_span(v: DynValue, sp: SourceSpan) -> bool {
    v matches DynValue::Object { tag, fields } && tag@ == "Span"@ && fields@.len() == 2
        && fields@[0].0@ == "start"@ && is_line_column(fields@[0].1, sp.start)
        && fields@[1].0@ == "end"@ && is_line_column(fields@[1].1, sp.end)
}

/// The position `lc` as an object.
pub fn line_column_value(lc: &LineColumn) -> (r: DynValue)
    ensures
        is_line_column(r, *lc),
{
    let mut fields: Vec<(String, DynValue)> = Vec::new();
    fields.push((text("line"), u32_value(lc.line as u32)));
    fields.push((text("column"), u32_value(lc.column as u32)));
    DynValue::Object { tag: text("LineColumn"), fields }
}

/// The span `sp` as an object.
pub fn span_value(sp: &SourceSpan) -> (r: DynValue)
    ensures
        is_span(r, *sp),
{
    let mut fields: Vec<(String, DynValue)> = Vec::new();
    fields.push((text("start"), line_column_value(&sp.start)));
    fields.push((text("end"), line_column_value(&sp.end)));
    DynValue::Object { tag: text("Span"), fields }
}

/// An indexed sequence tagged `tag`, with no named fields.
pub fn sequence_value(tag: &str, items: Vec<DynValue>) -> (r: DynValue)
    ensures
        r matches DynValue::Indexed { tag: t, fields, items: out } && t@ == tag@ && fields@.len() == 0
            && out@ == items@,
{
    DynValue::Indexed { tag: text(tag), fields: Vec::new(), items }
}

/// A list converts to a sequence tagged `Vec`.
pub fn list_value(items: Vec<DynValue>) -> (r: DynValue)
    ensures
        r matches DynValue::Indexed { tag, fields, items: out } && tag@ == "Vec"@ && fields@.len() == 0
            && out@ == items@,
{
    sequence_value("Vec", items)
}

/// A tuple converts to a sequence tagged `Tuple`.
pub fn tuple_value(items: Vec<DynValue>) -> (r: DynValue)
    ensures
        r matches DynValue::Indexed { tag, fields, items: out } && tag@ == "Tuple"@ && fields@.len() == 0
            && out@ == items@,
{
    sequence_value("Tuple", items)
}

/// A separated list of `elements` with `separators`: a separator follows
/// every element but perhaps the last.
pub open spec fn separated_shape(elements: nat, separators: nat) -> bool {
    separators == elements || (elements >= 1 && separators + 1 == elements)
}

/// Element `k` stands at `2k` and its separator at `2k + 1`.
pub open spec fn separated_items(elements: Seq<DynValue>, separators: Seq<DynValue>, items: Seq<DynValue>) -> bool {
    &&& items.len() == elements.len() + separators.len()
    &&& forall|k: int| 0 <= k < elements.len() ==> items[2 * k] == #[trigger] elements[k]
    &&& forall|k: int| 0 <= k < separators.len() ==> items[2 * k + 1] == #[trigger] separators[k]
}

/// A separated list converts to a sequence tagged `Punctuated` that holds
/// elements and separators alternately. Its length is `2n` with a trailing
/// separator, `2n - 1` without one (`0` for no elements).
pub fn punctuated_value(elements: Vec<DynValue>, separators: Vec<DynValue>) -> (r: DynValue)
    requires
        separated_shape(elements@.len(), separators@.len()),
    ensures
        r matches DynValue::Indexed { tag, fields, items } && tag@ == "Punctuated"@ && fields@.len() == 0
            && separated_items(elements@, separators@, items@),
        separators@.len() == elements@.len() ==> r.length() == Some(2 * elements@.len()),
        separators@.len() < elements@.len() ==> r.length() == Some((2 * elements@.len() - 1) as nat),
{
    let ghost e0 = elements@;
    let ghost s0 = separators@;
    let mut items: Vec<DynValue> = Vec::new();
    let mut elements = elements;
    let mut separators = separators;
    let n = elements.len();
    let m = separators.len();
    let mut i: usize = 0;
    while i < n
        invariant
            n == e0.len(),
            m == s0.len(),
            separated_shape(n as nat, m as nat),
            i <= n,
            elements@.len() == n,
            separators@.len() == m,
            forall|k: int| i <= k < n ==> elements@[k] == e0[k],
            forall|k: int| i <= k < m ==> separators@[k] == s0[k],
            items@.len() == i + (if i <= m { i as int } else { m as int }),
            forall|k: int| 0 <= k < i ==> items@[2 * k] == #[trigger] e0[k],
            forall|k: int| 0 <= k < i && k < m ==> items@[2 * k + 1] == #[trigger] s0[k],
        decreases n - i,
    {
        let mut taken = DynValue::Absent;
        elements.set_and_swap(i, &mut taken);
        items.push(taken);
        if i < m {
            let mut sep = DynValue::Absent;
            separators.set_and_swap(i, &mut sep);
            items.push(sep);
        }
        i = i + 1;
    }
    sequence_value("Punctuated", items)
}

} // verus!
