use syn_js::convert::{
    line_column_value, punctuated_value, span_value, str_value, u32_value, u64_value, LineColumn,
    SourceSpan,
};
use syn_js::entry::{parse_declaration, parse_derive_input, parse_file, structured_error};
use syn_js::interpret::{check_well_typed, NativeValue, NodeParts};
use syn_js::generator::{
    default_config, derive_plans, emission_order, make_variant_tag, plan_node, ArmPlan,
    GeneratorConfig, RoutinePlan,
};
use syn_js::routine::{run_plan, NodeInput};
use syn_js::schema::{Data, Definitions, Node, Type};
use syn_js::tokens::{char_value, stream_value, Delimiter, Spacing, TokenTree};
use syn_js::value::{number_from_u64, DynValue, Number};

fn s(x: &str) -> String {
    x.to_string()
}

fn span_at(line: usize) -> SourceSpan {
    SourceSpan {
        start: LineColumn { line, column: 0 },
        end: LineColumn { line, column: 4 },
    }
}

fn macro_node() -> Node {
    Node {
        ident: s("Macro"),
        data: Data::Struct(vec![
            (s("path"), Type::Syn(s("Path"))),
            (s("paren"), Type::Group(s("Paren"))),
            (s("bang_token"), Type::Token(s("Bang"))),
            (s("delimiter"), Type::Syn(s("MacroDelimiter"))),
            (s("tokens"), Type::Ext(s("TokenStream"))),
        ]),
    }
}

fn field_names(v: &DynValue) -> Vec<String> {
    match v {
        DynValue::Object { fields, .. } => fields.iter().map(|f| f.0.clone()).collect(),
        DynValue::Indexed { fields, .. } => fields.iter().map(|f| f.0.clone()).collect(),
        _ => Vec::new(),
    }
}

fn tag(v: &DynValue) -> Option<String> {
    match v {
        DynValue::Object { tag, .. } => Some(tag.clone()),
        DynValue::Indexed { tag, .. } => Some(tag.clone()),
        _ => None,
    }
}

fn length(v: &DynValue) -> Option<usize> {
    match v {
        DynValue::Indexed { items, .. } => Some(items.len()),
        _ => None,
    }
}

#[test]
fn grouping_fields_are_emitted_last() {
    let c = default_config();
    let node = macro_node();
    let fields = match &node.data {
        Data::Struct(f) => f,
        _ => unreachable!(),
    };
    let order = emission_order(&c, fields);
    let names: Vec<&str> = order.iter().map(|f| f.0.as_str()).collect();
    assert_eq!(names, vec!["path", "bang_token", "tokens", "paren", "delimiter"]);
    let positions: Vec<usize> = order.iter().map(|f| f.1).collect();
    assert_eq!(positions, vec![0, 2, 4, 1, 3]);
}

#[test]
fn struct_object_has_span_after_group_fields() {
    let c = default_config();
    let plan = plan_node(&c, &macro_node());
    let values = vec![str_value("p"), str_value("g"), str_value("b"), str_value("d"), str_value("t")];
    let out = run_plan(&plan, NodeInput::Fields(values), span_value(&span_at(1)));
    assert_eq!(tag(&out), Some(s("Macro")));
    assert_eq!(field_names(&out), vec!["path", "bang_token", "tokens", "paren", "delimiter", "span"]);
    match &out {
        DynValue::Object { fields, .. } => {
            assert_eq!(fields[3].1, str_value("g"));
            assert_eq!(fields[4].1, str_value("d"));
        }
        _ => panic!("not an object"),
    }
}

#[test]
fn unspanned_node_has_no_span() {
    let c = default_config();
    let node = Node {
        ident: s("DataStruct"),
        data: Data::Struct(vec![(s("fields"), Type::Syn(s("Fields")))]),
    };
    let plan = plan_node(&c, &node);
    match &plan {
        RoutinePlan::Struct { span, .. } => assert!(!span),
        _ => panic!("not a struct plan"),
    }
    let out = run_plan(&plan, NodeInput::Fields(vec![str_value("f")]), DynValue::Absent);
    assert_eq!(field_names(&out), vec!["fields"]);
}

fn lit_node() -> Node {
    Node {
        ident: s("Expr"),
        data: Data::Enum(vec![
            (s("Verbatim"), vec![]),
            (s("Lit"), vec![Type::Syn(s("ExprLit"))]),
            (s("Pair"), vec![Type::Syn(s("Expr")), Type::Token(s("Comma"))]),
        ]),
    }
}

#[test]
fn enum_arms_by_payload_count() {
    let c = default_config();
    let plan = plan_node(&c, &lit_node());
    let arms = match &plan {
        RoutinePlan::Enum { arms } => arms,
        _ => panic!("not an enum plan"),
    };
    assert!(matches!(&arms[0], ArmPlan::Unit { tag } if tag == "Expr::Verbatim"));
    assert!(matches!(&arms[1], ArmPlan::Transparent));
    assert!(matches!(&arms[2], ArmPlan::Positional { tag, arity: 2 } if tag == "Expr::Pair"));

    let unit = run_plan(&plan, NodeInput::Variant { index: 0, payload: vec![] }, DynValue::Absent);
    assert_eq!(tag(&unit), Some(s("Expr::Verbatim")));
    assert_eq!(field_names(&unit).len(), 0);

    let inner = run_plan(&plan, NodeInput::Variant { index: 1, payload: vec![str_value("x")] }, DynValue::Absent);
    assert_eq!(inner, str_value("x"));

    let pair = run_plan(
        &plan,
        NodeInput::Variant { index: 2, payload: vec![str_value("a"), str_value("b")] },
        span_value(&span_at(2)),
    );
    assert_eq!(tag(&pair), Some(s("Expr::Pair")));
    assert_eq!(field_names(&pair), vec!["span"]);
    assert_eq!(length(&pair), Some(2));
}

#[test]
fn every_node_and_token_gets_a_routine() {
    let c = default_config();
    let defs = Definitions {
        types: vec![
            macro_node(),
            lit_node(),
            Node { ident: s("Lifetime"), data: Data::Private },
        ],
        tokens: vec![(s("Comma"), s(",")), (s("Bang"), s("!"))],
    };
    let plans = derive_plans(&c, &defs);
    assert_eq!(plans.len(), 9);
    assert!(matches!(&plans[5], RoutinePlan::Token { tag } if tag == "Group"));
    assert!(matches!(&plans[8], RoutinePlan::Token { tag } if tag == "Bracket"));
    assert!(matches!(&plans[2], RoutinePlan::Private { tag } if tag == "Lifetime"));
    assert!(matches!(&plans[3], RoutinePlan::Token { tag } if tag == "Comma"));
    let comma = run_plan(&plans[3], NodeInput::Token, span_value(&span_at(3)));
    assert_eq!(tag(&comma), Some(s("Comma")));
    assert_eq!(field_names(&comma), vec!["span"]);
    let life = run_plan(&plans[2], NodeInput::Private(str_value("'a")), span_value(&span_at(3)));
    assert_eq!(tag(&life), Some(s("Lifetime")));
    assert_eq!(field_names(&life), vec!["value", "span"]);
}

#[test]
fn custom_delimiter_markers() {
    let c = GeneratorConfig { unspanned: vec![], delimiter_markers: vec![s("Wrapper")] };
    let fields = vec![(s("w"), Type::Syn(s("Wrapper"))), (s("x"), Type::Std(s("u32")))];
    let order = emission_order(&c, &fields);
    assert_eq!(order, vec![(s("x"), 1), (s("w"), 0)]);
}

#[test]
fn variant_tag_joins_names() {
    assert_eq!(make_variant_tag(&s("Delimiter"), &s("Brace")), "Delimiter::Brace");
}

#[test]
fn precision_boundary() {
    let a = number_from_u64(1u64 << 53);
    let b = number_from_u64((1u64 << 53) + 1);
    assert_eq!(a, b);
    assert_eq!(a, Number { mantissa: 1 << 52, exponent: 1 });
    let below = number_from_u64((1u64 << 53) - 1);
    assert_eq!(below, Number { mantissa: (1 << 53) - 1, exponent: 0 });
    let odd = number_from_u64((1u64 << 53) + 3);
    assert_eq!(odd, Number { mantissa: (1 << 52) + 2, exponent: 1 });
    let top = number_from_u64(u64::MAX);
    assert_eq!(top, Number { mantissa: 1 << 53, exponent: 11 });
    assert!(matches!(u64_value(7), DynValue::Num(Number { mantissa: 7, exponent: 0 })));
    assert!(matches!(u32_value(u32::MAX), DynValue::Num(Number { mantissa: 4294967295, exponent: 0 })));
}

#[test]
fn punctuated_lengths() {
    let el = || vec![str_value("a"), str_value("b"), str_value("c")];
    let trailing = punctuated_value(el(), vec![str_value(","), str_value(","), str_value(",")]);
    assert_eq!(tag(&trailing), Some(s("Punctuated")));
    assert_eq!(length(&trailing), Some(6));
    let plain = punctuated_value(el(), vec![str_value(","), str_value(";")]);
    assert_eq!(length(&plain), Some(5));
    match &plain {
        DynValue::Indexed { items, .. } => {
            assert_eq!(items[0], str_value("a"));
            assert_eq!(items[1], str_value(","));
            assert_eq!(items[2], str_value("b"));
            assert_eq!(items[3], str_value(";"));
            assert_eq!(items[4], str_value("c"));
        }
        _ => panic!("not a sequence"),
    }
    let empty = punctuated_value(vec![], vec![]);
    assert_eq!(length(&empty), Some(0));
}

#[test]
fn line_column_and_char() {
    let v = line_column_value(&LineColumn { line: 3, column: 7 });
    assert_eq!(tag(&v), Some(s("LineColumn")));
    assert_eq!(field_names(&v), vec!["line", "column"]);
    assert_eq!(char_value('é'), DynValue::Text(s("é")));
}

#[test]
fn token_stream_items() {
    let stream = vec![
        TokenTree::Ident { text: s("foo"), span: span_at(1) },
        TokenTree::Group {
            delimiter: Delimiter::Parenthesis,
            stream: vec![TokenTree::Punct { ch: '+', spacing: Spacing::Alone, span: span_at(1) }],
            span: span_at(1),
        },
        TokenTree::Literal { text: s("1"), span: span_at(1) },
    ];
    let v = stream_value(&stream);
    assert_eq!(tag(&v), Some(s("TokenStream")));
    assert_eq!(length(&v), Some(3));
    match &v {
        DynValue::Indexed { items, .. } => {
            assert_eq!(tag(&items[0]), Some(s("Ident")));
            assert_eq!(field_names(&items[1]), vec!["delimiter", "stream", "span"]);
            assert_eq!(tag(&items[2]), Some(s("Literal")));
            match &items[0] {
                DynValue::Object { fields, .. } => assert_eq!(fields[0], (s("to_string"), DynValue::Text(s("foo")))),
                _ => panic!("not an object"),
            }
            match &items[1] {
                DynValue::Object { fields, .. } => {
                    assert_eq!(fields[0].1, DynValue::Object { tag: s("Delimiter::Parenthesis"), fields: vec![] });
                    assert_eq!(tag(&fields[1].1), Some(s("TokenStream")));
                    assert_eq!(length(&fields[1].1), Some(1));
                }
                _ => panic!("not an object"),
            }
        }
        _ => panic!("not a sequence"),
    }
}

#[test]
fn malformed_input_reports_line_one() {
    let err = parse_file("fn (").unwrap_err();
    assert_eq!(err.line, 1);
    assert!(!err.message.is_empty());
}

#[test]
fn error_on_later_line() {
    let err = parse_file("fn a() {}\n\nfn (").unwrap_err();
    assert_eq!(err.line, 3);
}

#[test]
fn structured_error_truncates_line() {
    let e = structured_error(s("m"), 7);
    assert_eq!(e.line, 7);
    assert_eq!(e.message, "m");
}

fn declaration_catalog() -> Definitions {
    Definitions {
        types: vec![
            Node {
                ident: s("DeriveInput"),
                data: Data::Struct(vec![
                    (s("ident"), Type::Ext(s("Ident"))),
                    (s("data"), Type::Syn(s("Data"))),
                ]),
            },
            Node { ident: s("Data"), data: Data::Enum(vec![(s("Struct"), vec![Type::Syn(s("DataStruct"))])]) },
            Node {
                ident: s("DataStruct"),
                data: Data::Struct(vec![
                    (s("struct_token"), Type::Token(s("Struct"))),
                    (s("brace_token"), Type::Group(s("Brace"))),
                    (s("named"), Type::Punctuated { element: Box::new(Type::Syn(s("Field"))), punct: s(",") }),
                ]),
            },
            Node {
                ident: s("Field"),
                data: Data::Struct(vec![
                    (s("ident"), Type::Optional(Box::new(Type::Ext(s("Ident"))))),
                    (s("colon_token"), Type::Optional(Box::new(Type::Token(s("Colon"))))),
                    (s("ty"), Type::Std(s("u32"))),
                ]),
            },
        ],
        tokens: vec![(s("Struct"), s("struct")), (s("Colon"), s(":"))],
    }
}

fn ident_tree(name: &str, col: usize) -> NativeValue {
    NativeValue::Tree(TokenTree::Ident { text: s(name), span: span_at_col(col) })
}

fn span_at_col(col: usize) -> SourceSpan {
    SourceSpan { start: LineColumn { line: 1, column: col }, end: LineColumn { line: 1, column: col + 1 } }
}

#[test]
fn single_declaration() {
    // `struct A { x: u32 }`, read with a catalog whose field `ty` is a
    // standard integer.
    let defs = declaration_catalog();
    let plans = derive_plans(&default_config(), &defs);
    let token = |routine: usize, col: usize| NativeValue::Node { routine, parts: NodeParts::Token, span: span_at_col(col) };
    let field = NativeValue::Node {
        routine: 3,
        parts: NodeParts::Fields(vec![
            NativeValue::Present(Box::new(ident_tree("x", 11))),
            NativeValue::Present(Box::new(token(4 + 1, 12))),
            NativeValue::U32(7),
        ]),
        span: span_at_col(11),
    };
    let data_struct = NativeValue::Node {
        routine: 2,
        parts: NodeParts::Fields(vec![
            token(4, 0),
            token(4 + 2 + 2, 9),
            NativeValue::Separated { elements: vec![field], separators: vec![] },
        ]),
        span: span_at_col(0),
    };
    let tree = NativeValue::Node {
        routine: 0,
        parts: NodeParts::Fields(vec![
            ident_tree("A", 7),
            NativeValue::Node { routine: 1, parts: NodeParts::Variant { index: 0, payload: vec![data_struct] }, span: span_at_col(0) },
        ]),
        span: span_at_col(0),
    };
    assert!(check_well_typed(&plans, &tree));
    let out = parse_derive_input(&plans, Ok(tree)).unwrap();
    assert_eq!(tag(&out), Some(s("DeriveInput")));
    assert_eq!(field_names(&out), vec!["ident", "data", "span"]);
    fn fields_of(v: &DynValue) -> Vec<&DynValue> {
        match v {
            DynValue::Object { fields, .. } => fields.iter().map(|f| &f.1).collect(),
            _ => panic!("not an object"),
        }
    }
    let top = fields_of(&out);
    assert_eq!(field_names(top[0]), vec!["to_string", "span"]);
    assert_eq!(fields_of(top[0])[0], &DynValue::Text(s("A")));
    assert_eq!(tag(top[1]), Some(s("DataStruct")));
    assert_eq!(field_names(top[1]), vec!["struct_token", "named", "brace_token"]);
    let named = fields_of(top[1])[1];
    let x = match named {
        DynValue::Indexed { items, .. } => &items[0],
        _ => panic!("not a sequence"),
    };
    assert_eq!(tag(x), Some(s("Field")));
    let xf = fields_of(x);
    assert_eq!(fields_of(xf[0])[0], &DynValue::Text(s("x")));
    assert_eq!(xf[2], &DynValue::Num(Number { mantissa: 7, exponent: 0 }));
}

#[test]
fn declaration_parse_errors() {
    assert!(parse_declaration("struct A { x: u32 }").is_ok());
    let err = parse_declaration("fn f() {}").err().unwrap();
    assert_eq!(err.line, 1);
    assert!(!err.message.is_empty());
    let passed = parse_derive_input(&vec![], Err(structured_error(s("m"), 2))).err().unwrap();
    assert_eq!((passed.message, passed.line), (s("m"), 2));
}

#[test]
fn round_trip_through_text() {
    let source = "struct A { x: u32 }\nfn f(a: u8) -> u8 { a + 1 }\n";
    let form = parse_file(source).unwrap();
    let file: syn::File = syn_serde::json::from_str(&form).unwrap();
    let printed = quote::ToTokens::into_token_stream(file).to_string();
    let again = parse_file(&printed).unwrap();
    assert_eq!(again, form);
}

#[test]
fn parse_is_repeatable() {
    assert_eq!(parse_file("fn a() {}").unwrap(), parse_file("fn a() {}").unwrap());
    let e1 = parse_file("fn (").unwrap_err();
    let e2 = parse_file("fn (").unwrap_err();
    assert_eq!((e1.message, e1.line), (e2.message, e2.line));
}

