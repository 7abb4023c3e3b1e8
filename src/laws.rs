//! Properties that relate the decoder's outcomes across inputs and shapes.
use vstd::prelude::*;

use crate::decode::{
    decode_ref, decode_type, element_prefix, field_outcome, first_named, first_present,
    named_prefix, payload_is_empty, FieldOutcome, Tally,
};
use crate::error::{Expected, Fault};
use crate::schema::{FieldSpec, Schema, Shape, Tagging, TypeRef, VariantSpec};
use crate::value::{lookup, Datum, Value};

verus! {

proof fn lemma_one_missing(s: Schema, i: nat, fs: Seq<FieldSpec>, v: Value, k: int, m: nat)
    requires
        0 <= k < fs.len(),
        m <= fs.len(),
        v is Object,
        !fs[k].skip,
        !fs[k].flatten,
        !fs[k].default_on_missing,
        lookup(v->Object_0@, fs[k].wire_name@) is None,
        forall|o: int|
            0 <= o < fs.len() && o != k ==> #[trigger] field_outcome(s, i, fs[o], v) is Value,
    ensures
        named_prefix(s, i, fs, v, m) is Open,
        named_prefix(s, i, fs, v, m)->Open_1 == (if m > k {
            seq![(fs[k].wire_name@, Fault::MissingField)]
        } else {
            seq![]
        }),
    decreases m,
{
    if m > 0 {
        lemma_one_missing(s, i, fs, v, k, (m - 1) as nat);
        if m - 1 == k {
            assert(field_outcome(s, i, fs[k], v) == FieldOutcome::Errors(
                seq![(fs[k].wire_name@, Fault::MissingField)],
            ));
            assert(seq![] + seq![(fs[k].wire_name@, Fault::MissingField)] =~= seq![
                (fs[k].wire_name@, Fault::MissingField),
            ]);
        } else {
            assert(field_outcome(s, i, fs[m - 1], v) is Value);
        }
    }
}

/// Decoding a map that lacks a required field, while every other field decodes,
/// fails with exactly one field error: the field's wire name and `MissingField`.
pub proof fn missing_required_field(s: Schema, i: nat, v: Value, k: int)
    requires
        i < s.types@.len(),
        s.types@[i as int] is Named,
        0 <= k < s.types@[i as int]->Named_0@.len(),
        v is Object,
        ({
            let f = s.types@[i as int]->Named_0@[k];
            !f.skip && !f.flatten && !f.default_on_missing && lookup(v->Object_0@, f.wire_name@) is None
        }),
        forall|o: int|
            0 <= o < s.types@[i as int]->Named_0@.len() && o != k ==> #[trigger] field_outcome(
                s,
                i,
                s.types@[i as int]->Named_0@[o],
                v,
            ) is Value,
    ensures
        decode_type(s, i, v) == Err::<Datum, Fault>(
            Fault::NamedFieldErrors(
                seq![(s.types@[i as int]->Named_0@[k].wire_name@, Fault::MissingField)],
            ),
        ),
{
    let fs = s.types@[i as int]->Named_0@;
    lemma_one_missing(s, i, fs, v, k, fs.len());
}

/// A record with named fields decodes a value that is not a map to
/// `InvalidValue(Object)`, whatever its fields.
pub proof fn named_record_needs_map(s: Schema, i: nat, v: Value)
    requires
        i < s.types@.len(),
        s.types@[i as int] is Named,
        !(v is Object),
    ensures
        decode_type(s, i, v) == Err::<Datum, Fault>(Fault::InvalidValue(Expected::Object)),
{
}

/// A record with one positional field decodes a value exactly as that field's
/// type does, with no array around it.
pub proof fn newtype_passes_through(s: Schema, i: nat, v: Value)
    requires
        i < s.types@.len(),
        s.types@[i as int] is Positional,
        s.types@[i as int]->Positional_0@.len() == 1,
    ensures
        decode_type(s, i, v) == match decode_ref(
            s,
            i,
            s.types@[i as int]->Positional_0@[0],
            v,
        ) {
            Ok(d) => Ok(Datum::Fields(seq![d])),
            Err(e) => Err(e),
        },
{
}

/// A record with two or more positional fields rejects a value that is not an
/// array, or an array shorter than its field count, whatever the elements hold.
pub proof fn short_array_rejected(s: Schema, i: nat, v: Value)
    requires
        i < s.types@.len(),
        s.types@[i as int] is Positional,
        s.types@[i as int]->Positional_0@.len() >= 2,
        !(v is Array) || v->Array_0@.len() < s.types@[i as int]->Positional_0@.len(),
    ensures
        decode_type(s, i, v) == Err::<Datum, Fault>(
            Fault::InvalidValue(
                Expected::ArrayOfLength(s.types@[i as int]->Positional_0@.len() as usize),
            ),
        ),
{
}

proof fn lemma_one_bad_element(
    s: Schema,
    i: nat,
    ts: Seq<TypeRef>,
    items: Seq<Value>,
    k: int,
    e: Fault,
    m: nat,
)
    requires
        0 <= k < ts.len(),
        m <= ts.len() <= items.len(),
        decode_ref(s, i, ts[k], items[k]) == Err::<Datum, Fault>(e),
        forall|o: int|
            0 <= o < ts.len() && o != k ==> #[trigger] decode_ref(s, i, ts[o], items[o]) is Ok,
    ensures
        element_prefix(s, i, ts, items, m) is Open,
        element_prefix(s, i, ts, items, m)->Open_1 == (if m > k {
            seq![(k as nat, e)]
        } else {
            seq![]
        }),
    decreases m,
{
    if m > 0 {
        lemma_one_bad_element(s, i, ts, items, k, e, (m - 1) as nat);
        if m - 1 == k {
            assert(seq![].push((k as nat, e)) =~= seq![(k as nat, e)]);
        } else {
            assert(decode_ref(s, i, ts[m - 1], items[m - 1]) is Ok);
        }
    }
}

/// In an array long enough for a record with two or more positional fields,
/// one malformed element gives exactly one error, under its index, when the
/// other elements decode.
pub proof fn one_bad_element(s: Schema, i: nat, v: Value, k: int, e: Fault)
    requires
        i < s.types@.len(),
        s.types@[i as int] is Positional,
        s.types@[i as int]->Positional_0@.len() >= 2,
        v is Array,
        v->Array_0@.len() >= s.types@[i as int]->Positional_0@.len(),
        0 <= k < s.types@[i as int]->Positional_0@.len(),
        decode_ref(s, i, s.types@[i as int]->Positional_0@[k], v->Array_0@[k]) == Err::<
            Datum,
            Fault,
        >(e),
        forall|o: int|
            0 <= o < s.types@[i as int]->Positional_0@.len() && o != k ==> #[trigger] decode_ref(
                s,
                i,
                s.types@[i as int]->Positional_0@[o],
                v->Array_0@[o],
            ) is Ok,
    ensures
        decode_type(s, i, v) == Err::<Datum, Fault>(Fault::UnnamedFieldErrors(seq![(k as nat, e)])),
{
    let ts = s.types@[i as int]->Positional_0@;
    lemma_one_bad_element(s, i, ts, v->Array_0@, k, e, ts.len());
}

proof fn lemma_none_present(vs: Seq<VariantSpec>, k: nat)
    ensures
        first_present(vs, seq![], k) is None,
    decreases vs.len() - k,
{
    if k < vs.len() {
        lemma_none_present(vs, k + 1);
    }
}

/// An externally tagged enum decodes an empty map to `UnknownEnumVariant`.
pub proof fn external_empty_map_unknown(s: Schema, i: nat, v: Value)
    requires
        i < s.types@.len(),
        s.types@[i as int] is Enum,
        s.types@[i as int]->Enum_0 is External,
        v is Object,
        v->Object_0@.len() == 0,
    ensures
        decode_type(s, i, v) == Err::<Datum, Fault>(Fault::UnknownEnumVariant),
{
    lemma_none_present(s.types@[i as int]->Enum_1@, 0);
    assert(v->Object_0@ =~= seq![]);
}

/// An externally tagged enum decodes a string that names a variant without
/// payload to that variant.
pub proof fn external_name_selects_unit_variant(s: Schema, i: nat, v: Value, j: nat)
    requires
        i < s.types@.len(),
        s.types@[i as int] is Enum,
        s.types@[i as int]->Enum_0 is External,
        v is Str,
        first_named(s.types@[i as int]->Enum_1@, v->Str_0@, 0) == Some(j),
        payload_is_empty(s.types@[i as int]->Enum_1@[j as int].payload),
    ensures
        decode_type(s, i, v) == Ok::<Datum, Fault>(
            Datum::Variant(j, Box::new(Datum::Fields(seq![]))),
        ),
{
}

/// Under a tag key, internally or adjacently, a map without that key fails
/// with one field error: the tag key and `MissingField`.
pub proof fn missing_tag(s: Schema, i: nat, v: Value, tag: Seq<char>)
    requires
        i < s.types@.len(),
        s.types@[i as int] is Enum,
        match s.types@[i as int]->Enum_0 {
            Tagging::Internal(t) => t@ == tag,
            Tagging::Adjacent(t, _) => t@ == tag,
            Tagging::External => false,
        },
        v is Object,
        lookup(v->Object_0@, tag) is None,
    ensures
        decode_type(s, i, v) == Err::<Datum, Fault>(
            Fault::NamedFieldErrors(seq![(tag, Fault::MissingField)]),
        ),
{
}

/// Under a tag key, internally or adjacently, a tag that names no declared
/// variant fails with `UnknownEnumVariant` and nothing else.
pub proof fn unknown_tag(s: Schema, i: nat, v: Value, tag: Seq<char>, name: Seq<char>)
    requires
        i < s.types@.len(),
        s.types@[i as int] is Enum,
        match s.types@[i as int]->Enum_0 {
            Tagging::Internal(t) => t@ == tag,
            Tagging::Adjacent(t, _) => t@ == tag,
            Tagging::External => false,
        },
        v is Object,
        match lookup(v->Object_0@, tag) {
            Some(Value::Str(n)) => n@ == name,
            _ => false,
        },
        first_named(s.types@[i as int]->Enum_1@, name, 0) is None,
    ensures
        decode_type(s, i, v) == Err::<Datum, Fault>(Fault::UnknownEnumVariant),
{
}

/// Adjacently tagged, with no content key in the map: a variant without
/// payload decodes, and one with a payload fails with one field error, the
/// content key and `MissingField`.
pub proof fn adjacent_without_content(
    s: Schema,
    i: nat,
    v: Value,
    content: Seq<char>,
    name: Seq<char>,
    j: nat,
)
    requires
        i < s.types@.len(),
        s.types@[i as int] is Enum,
        match s.types@[i as int]->Enum_0 {
            Tagging::Adjacent(t, c) => c@ == content && match lookup(v->Object_0@, t@) {
                Some(Value::Str(n)) => n@ == name,
                _ => false,
            },
            _ => false,
        },
        v is Object,
        lookup(v->Object_0@, content) is None,
        first_named(s.types@[i as int]->Enum_1@, name, 0) == Some(j),
    ensures
        decode_type(s, i, v) == if payload_is_empty(s.types@[i as int]->Enum_1@[j as int].payload) {
            Ok::<Datum, Fault>(Datum::Variant(j, Box::new(Datum::Fields(seq![]))))
        } else {
            Err(Fault::NamedFieldErrors(seq![(content, Fault::MissingField)]))
        },
{
}

proof fn lemma_named_filled(s: Schema, i: nat, fs: Seq<FieldSpec>, v: Value, m: nat)
    requires
        m <= fs.len(),
    ensures
        named_prefix(s, i, fs, v, m) is Open ==> named_prefix(s, i, fs, v, m)->Open_0.len() == m
            || named_prefix(s, i, fs, v, m)->Open_1.len() > 0,
    decreases m,
{
    if m > 0 {
        lemma_named_filled(s, i, fs, v, (m - 1) as nat);
        let o = field_outcome(s, i, fs[m - 1], v);
        if o is Errors {
            assert(o->Errors_0.len() > 0);
        }
    }
}

proof fn lemma_elements_filled(s: Schema, i: nat, ts: Seq<TypeRef>, items: Seq<Value>, m: nat)
    ensures
        element_prefix(s, i, ts, items, m) is Open,
        element_prefix(s, i, ts, items, m)->Open_0.len() == m || element_prefix(
            s,
            i,
            ts,
            items,
            m,
        )->Open_1.len() > 0,
    decreases m,
{
    if m > 0 {
        lemma_elements_filled(s, i, ts, items, (m - 1) as nat);
    }
}

/// A record that decodes holds one value for each declared field, skipped and
/// defaulted fields included: no field is left unfilled.
pub proof fn decoded_record_is_complete(s: Schema, i: nat, v: Value)
    requires
        i < s.types@.len(),
        s.types@[i as int] is Named || s.types@[i as int] is Positional,
        decode_type(s, i, v) is Ok,
    ensures
        decode_type(s, i, v)->Ok_0 is Fields,
        decode_type(s, i, v)->Ok_0->Fields_0.len() == match s.types@[i as int] {
            Shape::Named(fs) => fs@.len(),
            Shape::Positional(ts) => ts@.len(),
            _ => 0,
        },
{
    match s.types@[i as int] {
        Shape::Named(fs) => {
            lemma_named_filled(s, i, fs@, v, fs@.len());
        },
        Shape::Positional(ts) => {
            if ts@.len() >= 2 && v is Array {
                lemma_elements_filled(s, i, ts@, v->Array_0@, ts@.len());
            }
        },
        _ => {},
    }
}

} // verus!
