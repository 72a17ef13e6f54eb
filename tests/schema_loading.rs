use syn_js::loader::{decode_type, load_definitions, Json};
use syn_js::schema::{Data, Type};

fn t(x: &str) -> Json {
    Json::Text(x.to_string())
}

fn obj(members: Vec<(&str, Json)>) -> Json {
    Json::Object(members.into_iter().map(|(k, v)| (k.to_string(), v)).collect())
}

fn catalog() -> Json {
    obj(vec![
        (
            "types",
            Json::Array(vec![
                obj(vec![
                    ("ident", t("ExprParen")),
                    (
                        "fields",
                        obj(vec![
                            ("attrs", obj(vec![("vec", obj(vec![("syn", t("Attribute"))]))])),
                            ("paren_token", obj(vec![("group", t("Paren"))])),
                            ("expr", obj(vec![("box", obj(vec![("syn", t("Expr"))]))])),
                        ]),
                    ),
                ]),
                obj(vec![
                    ("ident", t("Expr")),
                    (
                        "variants",
                        obj(vec![
                            ("Paren", Json::Array(vec![obj(vec![("syn", t("ExprParen"))])])),
                            ("Verbatim", Json::Array(vec![])),
                        ]),
                    ),
                ]),
                obj(vec![("ident", t("LitStr"))]),
            ]),
        ),
        ("tokens", obj(vec![("Comma", t(",")), ("Paren", t("()"))])),
    ])
}

#[test]
fn loads_a_catalog() {
    let defs = load_definitions(&catalog()).ok().unwrap();
    assert_eq!(defs.types.len(), 3);
    assert_eq!(defs.types[0].ident, "ExprParen");
    match &defs.types[0].data {
        Data::Struct(fields) => {
            let names: Vec<&str> = fields.iter().map(|f| f.0.as_str()).collect();
            assert_eq!(names, vec!["attrs", "paren_token", "expr"]);
            assert!(matches!(&fields[1].1, Type::Group(n) if n == "Paren"));
            assert!(matches!(&fields[2].1, Type::Boxed(inner) if matches!(&**inner, Type::Syn(n) if n == "Expr")));
        }
        _ => panic!("not a struct"),
    }
    match &defs.types[1].data {
        Data::Enum(variants) => {
            assert_eq!(variants.len(), 2);
            assert_eq!(variants[0].1.len(), 1);
            assert_eq!(variants[1].1.len(), 0);
        }
        _ => panic!("not an enum"),
    }
    assert!(matches!(defs.types[2].data, Data::Private));
    assert_eq!(defs.tokens, vec![("Comma".to_string(), ",".to_string()), ("Paren".to_string(), "()".to_string())]);
}

#[test]
fn decodes_every_type_shape() {
    let punct = obj(vec![(
        "punctuated",
        obj(vec![("element", obj(vec![("syn", t("FnArg"))])), ("punct", t(","))]),
    )]);
    assert!(matches!(decode_type(&punct), Ok(Type::Punctuated { punct, .. }) if punct == ","));
    let tuple = obj(vec![(
        "tuple",
        Json::Array(vec![obj(vec![("token", t("Bang"))]), obj(vec![("std", t("bool"))])]),
    )]);
    assert!(matches!(decode_type(&tuple), Ok(Type::Tuple(ts)) if ts.len() == 2));
    assert!(matches!(decode_type(&obj(vec![("proc_macro2", t("TokenStream"))])), Ok(Type::Ext(n)) if n == "TokenStream"));
    assert!(matches!(decode_type(&obj(vec![("option", obj(vec![("std", t("u32"))]))])), Ok(Type::Optional(_))));
}

#[test]
fn rejects_malformed_types() {
    assert!(decode_type(&t("syn")).is_err());
    assert!(decode_type(&obj(vec![("syn", t("A")), ("std", t("B"))])).is_err());
    assert!(decode_type(&obj(vec![("unknown", t("A"))])).is_err());
    assert!(decode_type(&obj(vec![("syn", Json::Bool(true))])).is_err());
    assert!(decode_type(&obj(vec![("punctuated", obj(vec![("punct", t(","))]))])).is_err());
    assert!(decode_type(&obj(vec![("tuple", Json::Array(vec![t("x")]))])).is_err());
}

#[test]
fn rejects_malformed_catalogs() {
    assert!(load_definitions(&Json::Null).is_err());
    assert!(load_definitions(&obj(vec![("types", Json::Array(vec![]))])).is_err());
    let no_ident = obj(vec![
        ("types", Json::Array(vec![obj(vec![("fields", obj(vec![]))])])),
        ("tokens", obj(vec![])),
    ]);
    assert!(load_definitions(&no_ident).is_err());
    let twice = obj(vec![
        ("types", Json::Array(vec![obj(vec![("ident", t("A"))]), obj(vec![("ident", t("A"))])])),
        ("tokens", obj(vec![])),
    ]);
    assert!(load_definitions(&twice).is_err());
    let bad_token = obj(vec![("types", Json::Array(vec![])), ("tokens", obj(vec![("Comma", Json::Null)]))]);
    assert!(load_definitions(&bad_token).is_err());
}
