use syn_js::convert::{LineColumn, SourceSpan};
use syn_js::generator::{default_config, derive_plans};
use syn_js::interpret::{convert, NativeValue, NodeParts};
use syn_js::schema::{Data, Definitions, Node, Type};
use syn_js::tokens::{Spacing, TokenTree};
use syn_js::value::{DynValue, Number};

fn s(x: &str) -> String {
    x.to_string()
}

fn sp() -> SourceSpan {
    SourceSpan { start: LineColumn { line: 1, column: 0 }, end: LineColumn { line: 1, column: 9 } }
}

fn defs() -> Definitions {
    Definitions {
        types: vec![
            Node {
                ident: s("ExprCall"),
                data: Data::Struct(vec![
                    (s("func"), Type::Boxed(Box::new(Type::Syn(s("Expr"))))),
                    (s("paren_token"), Type::Group(s("Paren"))),
                    (
                        s("args"),
                        Type::Punctuated { element: Box::new(Type::Syn(s("Expr"))), punct: s(",") },
                    ),
                ]),
            },
            Node {
                ident: s("Expr"),
                data: Data::Enum(vec![
                    (s("Call"), vec![Type::Syn(s("ExprCall"))]),
                    (s("Path"), vec![Type::Syn(s("ExprPath"))]),
                ]),
            },
            Node { ident: s("ExprPath"), data: Data::Private },
        ],
        tokens: vec![(s("Paren"), s("()")), (s("Comma"), s(","))],
    }
}

fn path(name: &str) -> NativeValue {
    NativeValue::Node {
        routine: 1,
        parts: NodeParts::Variant {
            index: 1,
            payload: vec![NativeValue::Node {
                routine: 2,
                parts: NodeParts::Private(Box::new(NativeValue::Str(s(name)))),
                span: sp(),
            }],
        },
        span: sp(),
    }
}

fn token(routine: usize) -> NativeValue {
    NativeValue::Node { routine, parts: NodeParts::Token, span: sp() }
}

fn tag(v: &DynValue) -> Option<&str> {
    match v {
        DynValue::Object { tag, .. } | DynValue::Indexed { tag, .. } => Some(tag.as_str()),
        _ => None,
    }
}

fn field<'a>(v: &'a DynValue, name: &str) -> &'a DynValue {
    match v {
        DynValue::Object { fields, .. } | DynValue::Indexed { fields, .. } => {
            &fields.iter().find(|f| f.0 == name).unwrap().1
        }
        _ => panic!("no fields"),
    }
}

fn names(v: &DynValue) -> Vec<&str> {
    match v {
        DynValue::Object { fields, .. } | DynValue::Indexed { fields, .. } => fields.iter().map(|f| f.0.as_str()).collect(),
        _ => Vec::new(),
    }
}

#[test]
fn converts_a_call_expression() {
    let plans = derive_plans(&default_config(), &defs());
    let call = NativeValue::Node {
        routine: 0,
        parts: NodeParts::Fields(vec![
            NativeValue::Boxed(Box::new(path("f"))),
            token(3),
            NativeValue::Separated {
                elements: vec![path("a"), path("b")],
                separators: vec![token(4)],
            },
        ]),
        span: sp(),
    };
    let out = convert(&plans, call);
    assert_eq!(tag(&out), Some("ExprCall"));
    assert_eq!(names(&out), vec!["func", "args", "paren_token", "span"]);
    assert_eq!(tag(field(&out, "func")), Some("ExprPath"));
    assert_eq!(names(field(&out, "func")), vec!["value", "span"]);
    assert_eq!(field(field(&out, "func"), "value"), &DynValue::Text(s("f")));
    assert_eq!(tag(field(&out, "paren_token")), Some("Paren"));
    let args = field(&out, "args");
    assert_eq!(tag(args), Some("Punctuated"));
    match args {
        DynValue::Indexed { items, .. } => {
            assert_eq!(items.len(), 3);
            assert_eq!(tag(&items[0]), Some("ExprPath"));
            assert_eq!(tag(&items[1]), Some("Comma"));
            assert_eq!(tag(&items[2]), Some("ExprPath"));
        }
        _ => panic!("not a sequence"),
    }
    assert_eq!(tag(field(&out, "span")), Some("Span"));
}

#[test]
fn converts_wrappers_and_scalars() {
    let plans = derive_plans(&default_config(), &defs());
    assert_eq!(convert(&plans, NativeValue::Missing), DynValue::Absent);
    assert_eq!(convert(&plans, NativeValue::Present(Box::new(NativeValue::Bool(true)))), DynValue::Bool(true));
    assert_eq!(convert(&plans, NativeValue::Char('x')), DynValue::Text(s("x")));
    assert_eq!(
        convert(&plans, NativeValue::Usize(9007199254740993)),
        DynValue::Num(Number { mantissa: 1 << 52, exponent: 1 })
    );
    assert_eq!(convert(&plans, NativeValue::U8(200)), DynValue::Num(Number { mantissa: 200, exponent: 0 }));
    let tuple = convert(&plans, NativeValue::Tuple(vec![NativeValue::U32(1), NativeValue::Str(s("a"))]));
    assert_eq!(tag(&tuple), Some("Tuple"));
    let list = convert(&plans, NativeValue::List(vec![]));
    assert_eq!(tag(&list), Some("Vec"));
    let tokens = convert(
        &plans,
        NativeValue::Tokens(vec![TokenTree::Punct { ch: '#', spacing: Spacing::Joint, span: sp() }]),
    );
    assert_eq!(tag(&tokens), Some("TokenStream"));
}
