use serde_lite_derive::attributes::{
    collect_entries, get_attr_value, get_enum_content, get_enum_tag, get_field_deserializer, get_field_name,
    get_field_serializer, get_field_updater, get_from, get_skip_field_serializing_if,
    get_variant_name, has_flag, resolve_field, resolve_tagging, resolve_variant, Attr, AttrError, AttrValue,
};
use serde_lite_derive::schema::{Payload, Scalar, Tagging, TypeRef};

fn s(x: &str) -> String {
    x.to_string()
}

fn val(name: &str, v: &str) -> Attr {
    Attr { name: s(name), value: AttrValue::Str(s(v)) }
}

fn flag(name: &str) -> Attr {
    Attr { name: s(name), value: AttrValue::Flag }
}

#[test]
fn rename_overrides_name() {
    assert_eq!(get_field_name(&s("field"), &vec![]), Ok(s("field")));
    assert_eq!(get_field_name(&s("field"), &vec![val("rename", "wire")]), Ok(s("wire")));
    assert_eq!(get_variant_name(&s("V"), &vec![flag("skip"), val("rename", "v")]), Ok(s("v")));
}

#[test]
fn last_annotation_wins() {
    let attrs = vec![val("rename", "a"), flag("rename"), val("rename", "b")];
    assert_eq!(get_field_name(&s("f"), &attrs), Ok(s("b")));
    assert_eq!(get_attr_value(&attrs, &s("rename")), Some(&AttrValue::Str(s("b"))));
}

#[test]
fn non_string_value_is_refused() {
    let attrs = vec![Attr { name: s("rename"), value: AttrValue::Other }];
    assert_eq!(get_field_name(&s("f"), &attrs), Err(AttrError::NotAString(s("rename"))));
    let attrs = vec![Attr { name: s("tag"), value: AttrValue::Other }];
    assert_eq!(get_enum_tag(&attrs), Err(AttrError::NotAString(s("tag"))));
}

#[test]
fn value_attributes_are_read() {
    let attrs = vec![
        val("skip_serializing_if", "is_none"),
        val("serialize_with", "enc"),
        val("deserialize_with", "dec"),
        val("update_with", "upd"),
        val("tag", "type"),
        val("content", "data"),
        val("from", "Raw"),
    ];
    assert_eq!(get_skip_field_serializing_if(&attrs), Ok(Some(s("is_none"))));
    assert_eq!(get_field_serializer(&attrs), Ok(Some(s("enc"))));
    assert_eq!(get_field_deserializer(&attrs), Ok(Some(s("dec"))));
    assert_eq!(get_field_updater(&attrs), Ok(Some(s("upd"))));
    assert_eq!(get_enum_tag(&attrs), Ok(Some(s("type"))));
    assert_eq!(get_enum_content(&attrs), Ok(Some(s("data"))));
    assert_eq!(get_from(&attrs), Ok(Some(s("Raw"))));
    assert_eq!(get_from(&vec![]), Ok(None));
}

#[test]
fn flags_are_presence_checks() {
    let attrs = vec![flag("default"), val("flatten", "x")];
    assert!(has_flag(&attrs, &s("default")));
    assert!(!has_flag(&attrs, &s("flatten")));
    assert!(!has_flag(&attrs, &s("skip")));
}

#[test]
fn tagging_follows_tag_and_content() {
    assert_eq!(resolve_tagging(&vec![]), Ok(Tagging::External));
    assert_eq!(resolve_tagging(&vec![val("content", "c")]), Err(AttrError::ContentWithoutTag));
    assert_eq!(resolve_tagging(&vec![val("tag", "t")]), Ok(Tagging::Internal(s("t"))));
    assert_eq!(
        resolve_tagging(&vec![val("tag", "t"), val("content", "c")]),
        Ok(Tagging::Adjacent(s("t"), s("c")))
    );
}

#[test]
fn field_configuration_is_resolved() {
    let attrs = vec![flag("skip_deserializing"), flag("default"), val("rename", "n")];
    let f = resolve_field(&s("name"), &attrs, TypeRef::Scalar(Scalar::Str), None, None).unwrap();
    assert_eq!(f.wire_name, s("n"));
    assert!(f.skip);
    assert!(f.default_on_missing);
    assert!(!f.flatten);
    assert_eq!(f.ty, TypeRef::Scalar(Scalar::Str));
    let f = resolve_field(&s("inner"), &vec![flag("flatten")], TypeRef::Def(0), None, None).unwrap();
    assert_eq!(f.wire_name, s("inner"));
    assert!(f.flatten && !f.skip && !f.default_on_missing);
}

#[test]
fn serde_annotations_are_parsed() {
    let anns = vec![
        (s("serde"), s("rename = \"wire\", skip")),
        (s("doc"), s("rename = \"other\"")),
        (s("serde"), s("tag = 3, flatten(x)")),
        (s("serde"), s("= =")),
    ];
    let attrs = collect_entries(&anns);
    assert_eq!(
        attrs,
        vec![
            val("rename", "wire"),
            flag("skip"),
            Attr { name: s("tag"), value: AttrValue::Other },
            Attr { name: s("flatten"), value: AttrValue::List },
        ]
    );
    assert_eq!(get_field_name(&s("f"), &attrs), Ok(s("wire")));
    assert_eq!(get_enum_tag(&attrs), Err(AttrError::NotAString(s("tag"))));
    assert!(!has_flag(&attrs, &s("flatten")));
}

#[test]
fn variant_configuration_is_resolved() {
    let v = resolve_variant(&s("Ping"), &vec![val("rename", "ping")], Payload::Unit).unwrap();
    assert_eq!(v.wire_name, s("ping"));
    assert_eq!(v.payload, Payload::Unit);
    let bad = vec![Attr { name: s("rename"), value: AttrValue::Other }];
    assert_eq!(
        resolve_variant(&s("Ping"), &bad, Payload::Unit),
        Err(AttrError::NotAString(s("rename")))
    );
}
