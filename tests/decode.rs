use serde_lite_derive::decode::decode;
use serde_lite_derive::error::{Error, Expected};
use serde_lite_derive::schema::{
    FieldSpec, Payload, Scalar, Schema, Shape, Tagging, TypeRef, VariantSpec,
};
use serde_lite_derive::value::{get, Decoded, Value};

fn s(x: &str) -> String {
    x.to_string()
}

fn obj(entries: Vec<(&str, Value)>) -> Value {
    Value::Object(entries.into_iter().map(|(k, v)| (s(k), v)).collect())
}

fn text(x: &str) -> Value {
    Value::Str(s(x))
}

fn field(name: &str, ty: TypeRef) -> FieldSpec {
    FieldSpec {
        wire_name: s(name),
        ty,
        decoder: None,
        skip: false,
        default_on_missing: false,
        flatten: false,
        default_value: None,
    }
}

fn scalar(k: Scalar) -> TypeRef {
    TypeRef::Scalar(k)
}

fn named_errors(list: Vec<(&str, Error)>) -> Error {
    Error::NamedFieldErrors(list.into_iter().map(|(k, e)| (s(k), e)).collect())
}

fn variant(name: &str, payload: Payload) -> VariantSpec {
    VariantSpec { wire_name: s(name), payload }
}

fn single(shape: Shape) -> Schema {
    let schema = Schema { types: vec![shape] };
    assert!(schema.is_well_formed());
    schema
}

fn person() -> Schema {
    let mut age = field("age", scalar(Scalar::U32));
    age.default_on_missing = true;
    single(Shape::Named(vec![field("name", scalar(Scalar::Str)), age]))
}

fn unit_variant() -> Decoded {
    Decoded::Variant(0, Box::new(Decoded::Fields(vec![])))
}

#[test]
fn person_with_default_age() {
    let r = decode(&person(), 0, &obj(vec![("name", text("Ann"))]));
    assert_eq!(r, Ok(Decoded::Fields(vec![Decoded::Str(s("Ann")), Decoded::Int(0)])));
}

#[test]
fn person_missing_name() {
    let r = decode(&person(), 0, &obj(vec![]));
    assert_eq!(r, Err(named_errors(vec![("name", Error::MissingField)])));
}

#[test]
fn person_present_age_is_decoded() {
    let r = decode(&person(), 0, &obj(vec![("age", Value::Int(41)), ("name", text("Bo"))]));
    assert_eq!(r, Ok(Decoded::Fields(vec![Decoded::Str(s("Bo")), Decoded::Int(41)])));
}

#[test]
fn missing_required_field_is_one_entry() {
    let schema = single(Shape::Named(vec![
        field("a", scalar(Scalar::I64)),
        field("b", scalar(Scalar::Bool)),
        field("c", scalar(Scalar::Str)),
    ]));
    let r = decode(&schema, 0, &obj(vec![("a", Value::Int(1)), ("c", text("x"))]));
    assert_eq!(r, Err(named_errors(vec![("b", Error::MissingField)])));
}

#[test]
fn every_field_failure_is_collected() {
    let schema = single(Shape::Named(vec![
        field("a", scalar(Scalar::I64)),
        field("b", scalar(Scalar::Bool)),
        field("c", scalar(Scalar::U32)),
    ]));
    let r = decode(&schema, 0, &obj(vec![("a", text("no")), ("c", Value::Int(-1))]));
    assert_eq!(
        r,
        Err(named_errors(vec![
            ("a", Error::InvalidValue(Expected::Integer)),
            ("b", Error::MissingField),
            ("c", Error::OutOfBounds),
        ]))
    );
}

#[test]
fn named_record_rejects_non_map() {
    let schema = single(Shape::Named(vec![field("a", scalar(Scalar::I64))]));
    let r = decode(&schema, 0, &Value::Array(vec![Value::Int(1)]));
    assert_eq!(r, Err(Error::InvalidValue(Expected::Object)));
    let r = decode(&schema, 0, &Value::Null);
    assert_eq!(r, Err(Error::InvalidValue(Expected::Object)));
}

#[test]
fn skipped_field_takes_default() {
    let mut note = field("note", scalar(Scalar::Str));
    note.skip = true;
    let schema = single(Shape::Named(vec![note, field("n", scalar(Scalar::I64))]));
    let r = decode(&schema, 0, &obj(vec![("note", Value::Int(3)), ("n", Value::Int(2))]));
    assert_eq!(r, Ok(Decoded::Fields(vec![Decoded::Str(s("")), Decoded::Int(2)])));
}

#[test]
fn custom_decoder_replaces_type_decoder() {
    let mut f = field("n", scalar(Scalar::Str));
    f.decoder = Some(scalar(Scalar::I64));
    let schema = single(Shape::Named(vec![f]));
    let r = decode(&schema, 0, &obj(vec![("n", Value::Int(9))]));
    assert_eq!(r, Ok(Decoded::Fields(vec![Decoded::Int(9)])));
}

fn flattened() -> Schema {
    let mut inner = field("inner", TypeRef::Def(0));
    inner.flatten = true;
    let schema = Schema {
        types: vec![
            Shape::Named(vec![field("x", scalar(Scalar::I64))]),
            Shape::Named(vec![field("id", scalar(Scalar::I64)), inner]),
        ],
    };
    assert!(schema.is_well_formed());
    schema
}

#[test]
fn flattened_errors_merge_into_parent() {
    let r = decode(&flattened(), 1, &obj(vec![]));
    assert_eq!(r, Err(named_errors(vec![("id", Error::MissingField), ("x", Error::MissingField)])));
}

#[test]
fn flattened_record_reads_whole_map() {
    let r = decode(&flattened(), 1, &obj(vec![("x", Value::Int(5)), ("id", Value::Int(6))]));
    assert_eq!(
        r,
        Ok(Decoded::Fields(vec![Decoded::Int(6), Decoded::Fields(vec![Decoded::Int(5)])]))
    );
}

#[test]
fn flattened_other_error_propagates_at_once() {
    let mut f = field("t", scalar(Scalar::Str));
    f.flatten = true;
    let schema = single(Shape::Named(vec![field("a", scalar(Scalar::I64)), f]));
    let r = decode(&schema, 0, &obj(vec![]));
    assert_eq!(r, Err(Error::InvalidValue(Expected::Str)));
}

#[test]
fn newtype_is_its_inner_type() {
    let schema = single(Shape::Positional(vec![scalar(Scalar::I64)]));
    let r = decode(&schema, 0, &Value::Int(5));
    assert_eq!(r, Ok(Decoded::Fields(vec![Decoded::Int(5)])));
    let r = decode(&schema, 0, &Value::Array(vec![Value::Int(5)]));
    assert_eq!(r, Err(Error::InvalidValue(Expected::Integer)));
}

#[test]
fn zero_positional_fields_read_nothing() {
    let schema = single(Shape::Positional(vec![]));
    assert_eq!(decode(&schema, 0, &Value::Null), Ok(Decoded::Fields(vec![])));
    let schema = single(Shape::Unit);
    assert_eq!(decode(&schema, 0, &Value::Int(1)), Ok(Decoded::Fields(vec![])));
}

fn pair() -> Schema {
    single(Shape::Positional(vec![scalar(Scalar::I64), scalar(Scalar::Str)]))
}

#[test]
fn short_array_is_rejected() {
    let r = decode(&pair(), 0, &Value::Array(vec![text("bad")]));
    assert_eq!(r, Err(Error::InvalidValue(Expected::ArrayOfLength(2))));
}

#[test]
fn tuple_needs_an_array() {
    let r = decode(&pair(), 0, &obj(vec![]));
    assert_eq!(r, Err(Error::InvalidValue(Expected::ArrayOfLength(2))));
    let r = decode(&pair(), 0, &Value::Int(1));
    assert_eq!(r, Err(Error::InvalidValue(Expected::ArrayOfLength(2))));
}

#[test]
fn bad_element_is_reported_by_index() {
    let r = decode(&pair(), 0, &Value::Array(vec![Value::Int(1), Value::Int(2)]));
    assert_eq!(
        r,
        Err(Error::UnnamedFieldErrors(vec![(1, Error::InvalidValue(Expected::Str))]))
    );
}

#[test]
fn longer_array_decodes_first_elements() {
    let r = decode(
        &pair(),
        0,
        &Value::Array(vec![Value::Int(1), text("a"), Value::Bool(true)]),
    );
    assert_eq!(r, Ok(Decoded::Fields(vec![Decoded::Int(1), Decoded::Str(s("a"))])));
}

#[test]
fn external_unit_from_string() {
    let schema = single(Shape::Enum(
        Tagging::External,
        vec![variant("Bar", Payload::Unit), variant("Foo", Payload::Unit)],
    ));
    let r = decode(&schema, 0, &text("Foo"));
    assert_eq!(r, Ok(Decoded::Variant(1, Box::new(Decoded::Fields(vec![])))));
}

fn external_payload() -> Schema {
    single(Shape::Enum(
        Tagging::External,
        vec![
            variant("Foo", Payload::Positional(vec![scalar(Scalar::I64)])),
            variant("Bar", Payload::Named(vec![field("x", scalar(Scalar::Bool))])),
        ],
    ))
}

#[test]
fn external_payload_from_map() {
    let r = decode(&external_payload(), 0, &obj(vec![("Foo", Value::Int(3))]));
    assert_eq!(
        r,
        Ok(Decoded::Variant(0, Box::new(Decoded::Fields(vec![Decoded::Int(3)]))))
    );
}

#[test]
fn external_empty_map_is_unknown() {
    let r = decode(&external_payload(), 0, &obj(vec![]));
    assert_eq!(r, Err(Error::UnknownEnumVariant));
}

#[test]
fn external_first_declared_key_wins() {
    let r = decode(
        &external_payload(),
        0,
        &obj(vec![("Bar", obj(vec![("x", Value::Bool(true))])), ("Foo", Value::Int(4))]),
    );
    assert_eq!(
        r,
        Ok(Decoded::Variant(0, Box::new(Decoded::Fields(vec![Decoded::Int(4)]))))
    );
}

#[test]
fn external_string_for_payload_variant() {
    let r = decode(&external_payload(), 0, &text("Foo"));
    assert_eq!(r, Err(Error::MissingEnumVariantContent));
    let r = decode(&external_payload(), 0, &text("Baz"));
    assert_eq!(r, Err(Error::UnknownEnumVariant));
}

#[test]
fn external_rejects_other_values() {
    let r = decode(&external_payload(), 0, &Value::Int(1));
    assert_eq!(r, Err(Error::InvalidValue(Expected::EnumVariant)));
}

fn internal() -> Schema {
    single(Shape::Enum(
        Tagging::Internal(s("type")),
        vec![
            variant("Circle", Payload::Named(vec![field("r", scalar(Scalar::I64))])),
            variant("Dot", Payload::Unit),
        ],
    ))
}

#[test]
fn internal_missing_tag() {
    let r = decode(&internal(), 0, &obj(vec![("r", Value::Int(1))]));
    assert_eq!(r, Err(named_errors(vec![("type", Error::MissingField)])));
}

#[test]
fn internal_unknown_tag() {
    let r = decode(&internal(), 0, &obj(vec![("type", text("Ghost"))]));
    assert_eq!(r, Err(Error::UnknownEnumVariant));
}

#[test]
fn internal_tag_must_be_string() {
    let r = decode(&internal(), 0, &obj(vec![("type", Value::Int(1))]));
    assert_eq!(
        r,
        Err(named_errors(vec![("type", Error::InvalidValue(Expected::EnumVariantName))]))
    );
    let r = decode(&internal(), 0, &text("Dot"));
    assert_eq!(r, Err(Error::InvalidValue(Expected::Object)));
}

#[test]
fn internal_payload_beside_tag() {
    let r = decode(&internal(), 0, &obj(vec![("type", text("Circle")), ("r", Value::Int(2))]));
    assert_eq!(
        r,
        Ok(Decoded::Variant(0, Box::new(Decoded::Fields(vec![Decoded::Int(2)]))))
    );
    let r = decode(&internal(), 0, &obj(vec![("type", text("Circle"))]));
    assert_eq!(r, Err(named_errors(vec![("r", Error::MissingField)])));
}

fn adjacent() -> Schema {
    single(Shape::Enum(
        Tagging::Adjacent(s("t"), s("c")),
        vec![
            variant("Ping", Payload::Unit),
            variant("Pong", Payload::Positional(vec![scalar(Scalar::I64)])),
        ],
    ))
}

#[test]
fn adjacent_unit_without_content() {
    let r = decode(&adjacent(), 0, &obj(vec![("t", text("Ping"))]));
    assert_eq!(r, Ok(unit_variant()));
}

#[test]
fn adjacent_payload_without_content() {
    let r = decode(&adjacent(), 0, &obj(vec![("t", text("Pong"))]));
    assert_eq!(r, Err(named_errors(vec![("c", Error::MissingField)])));
}

#[test]
fn adjacent_payload_with_content() {
    let r = decode(&adjacent(), 0, &obj(vec![("c", Value::Int(8)), ("t", text("Pong"))]));
    assert_eq!(
        r,
        Ok(Decoded::Variant(1, Box::new(Decoded::Fields(vec![Decoded::Int(8)]))))
    );
}

#[test]
fn scalars_decode_exactly() {
    let schema = single(Shape::Positional(vec![
        scalar(Scalar::Bool),
        scalar(Scalar::Unit),
        scalar(Scalar::U32),
    ]));
    let r = decode(
        &schema,
        0,
        &Value::Array(vec![Value::Bool(true), Value::Null, Value::UInt(4294967295)]),
    );
    assert_eq!(
        r,
        Ok(Decoded::Fields(vec![Decoded::Bool(true), Decoded::Unit, Decoded::Int(4294967295)]))
    );
    let r = decode(
        &schema,
        0,
        &Value::Array(vec![Value::Null, Value::Bool(false), Value::Int(4294967296)]),
    );
    assert_eq!(
        r,
        Err(Error::UnnamedFieldErrors(vec![
            (0, Error::InvalidValue(Expected::Bool)),
            (2, Error::OutOfBounds),
        ]))
    );
}

#[test]
fn integers_follow_their_range() {
    let schema = single(Shape::Positional(vec![
        scalar(Scalar::I64),
        scalar(Scalar::I64),
        scalar(Scalar::U32),
        scalar(Scalar::U32),
        scalar(Scalar::I64),
    ]));
    let r = decode(
        &schema,
        0,
        &Value::Array(vec![
            Value::UInt(9223372036854775808),
            Value::Float,
            text("7"),
            Value::Int(-1),
            Value::UInt(7),
        ]),
    );
    assert_eq!(
        r,
        Err(Error::UnnamedFieldErrors(vec![
            (0, Error::OutOfBounds),
            (1, Error::UnsupportedConversion),
            (2, Error::InvalidValue(Expected::UnsignedInteger)),
            (3, Error::OutOfBounds),
        ]))
    );
}

#[test]
fn default_of_schema_type_is_given() {
    let mut inner = field("inner", TypeRef::Def(0));
    inner.default_on_missing = true;
    inner.default_value = Some(Decoded::Fields(vec![Decoded::Int(7)]));
    let mut hidden = field("hidden", TypeRef::Def(0));
    hidden.skip = true;
    hidden.default_value = Some(Decoded::Fields(vec![Decoded::Int(1)]));
    let schema = Schema {
        types: vec![
            Shape::Named(vec![field("x", scalar(Scalar::I64))]),
            Shape::Named(vec![inner, hidden]),
        ],
    };
    assert!(schema.is_well_formed());
    let r = decode(&schema, 1, &obj(vec![("hidden", obj(vec![("x", Value::Int(3))]))]));
    assert_eq!(
        r,
        Ok(Decoded::Fields(vec![
            Decoded::Fields(vec![Decoded::Int(7)]),
            Decoded::Fields(vec![Decoded::Int(1)]),
        ]))
    );
}

#[test]
fn first_entry_wins_on_duplicate_keys() {
    let entries = vec![(s("k"), Value::Int(1)), (s("k"), Value::Int(2))];
    assert_eq!(get(&entries, &s("k")), Some(&Value::Int(1)));
    assert_eq!(get(&entries, &s("z")), None);
}

#[test]
fn ill_formed_schemas_are_refused() {
    let empty_enum = Schema { types: vec![Shape::Enum(Tagging::External, vec![])] };
    assert!(!empty_enum.is_well_formed());
    let forward = Schema { types: vec![Shape::Positional(vec![TypeRef::Def(0)])] };
    assert!(!forward.is_well_formed());
    let mut f = field("x", TypeRef::Def(0));
    f.default_on_missing = true;
    let defaulted_record = Schema { types: vec![Shape::Unit, Shape::Named(vec![f])] };
    assert!(!defaulted_record.is_well_formed());
}

#[test]
fn nested_failures_keep_their_path() {
    let shape = Shape::Enum(
        Tagging::Internal(s("type")),
        vec![variant("Circle", Payload::Named(vec![field("r", scalar(Scalar::I64))]))],
    );
    let schema = Schema {
        types: vec![shape, Shape::Named(vec![field("shape", TypeRef::Def(0))])],
    };
    assert!(schema.is_well_formed());
    let r = decode(&schema, 1, &obj(vec![("shape", obj(vec![("type", text("Circle"))]))]));
    assert_eq!(
        r,
        Err(named_errors(vec![("shape", named_errors(vec![("r", Error::MissingField)]))]))
    );
}
