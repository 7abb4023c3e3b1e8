//! The decoder: a specification of what each shape decodes to, and the
//! executable decoder proved to meet it.
use vstd::prelude::*;

use crate::error::{
    fault_of, lemma_named_view, lemma_unnamed_view, named_faults, unnamed_faults, Error, Expected,
    Fault,
};
use crate::schema::{
    decoder_of, field_wf, fields_wf, payload_wf, ref_below, refs_wf, shape_wf, FieldSpec, Payload,
    Scalar, Schema, Shape, Tagging, TypeRef, VariantSpec,
};
use crate::value::{datum_of, datums, get, lemma_fields_view, lookup, Datum, Decoded, Value};

verus! {

/// The state of a field-by-field decode after some of the fields: the values
/// decoded so far and the failures recorded so far, or a failure that ended it.
pub enum Tally<K> {
    Open(Seq<Datum>, Seq<(K, Fault)>),
    Stopped(Fault),
}

/// What one named field contributes to its record's decode.
pub enum FieldOutcome {
    Value(Datum),
    Errors(Seq<(Seq<char>, Fault)>),
    Fatal(Fault),
}

pub open spec fn result_view(r: Result<Decoded, Error>) -> Result<Datum, Fault> {
    match r {
        Ok(d) => Ok(datum_of(d)),
        Err(e) => Err(fault_of(e)),
    }
}

pub open spec fn scalar_default(k: Scalar) -> Datum {
    match k {
        Scalar::Bool => Datum::Bool(false),
        Scalar::I64 => Datum::Int(0),
        Scalar::U32 => Datum::Int(0),
        Scalar::Str => Datum::Str(Seq::empty()),
        Scalar::Unit => Datum::Unit,
    }
}

pub open spec fn default_of(r: TypeRef) -> Datum {
    match r {
        TypeRef::Scalar(k) => scalar_default(k),
        TypeRef::Def(_) => Datum::Unit,
    }
}

/// Reads `v` as an integer in `[lo, hi]`, failing with `not_number` where it
/// is no number.
/// The value a skipped or absent field takes.
pub open spec fn field_default(f: FieldSpec) -> Datum {
    match f.default_value {
        Some(d) => datum_of(d),
        None => default_of(f.ty),
    }
}

pub open spec fn decode_int(v: Value, lo: int, hi: int, not_number: Expected) -> Result<
    Datum,
    Fault,
> {
    match v {
        Value::Int(n) => if lo <= n <= hi {
            Ok(Datum::Int(n as int))
        } else {
            Err(Fault::OutOfBounds)
        },
        Value::UInt(n) => if lo <= n <= hi {
            Ok(Datum::Int(n as int))
        } else {
            Err(Fault::OutOfBounds)
        },
        Value::Float => Err(Fault::UnsupportedConversion),
        _ => Err(Fault::InvalidValue(not_number)),
    }
}

pub open spec fn decode_scalar(k: Scalar, v: Value) -> Result<Datum, Fault> {
    match k {
        Scalar::Bool => match v {
            Value::Bool(b) => Ok(Datum::Bool(b)),
            _ => Err(Fault::InvalidValue(Expected::Bool)),
        },
        Scalar::I64 => decode_int(v, i64::MIN as int, i64::MAX as int, Expected::Integer),
        Scalar::U32 => decode_int(v, 0, u32::MAX as int, Expected::UnsignedInteger),
        Scalar::Str => match v {
            Value::Str(s) => Ok(Datum::Str(s@)),
            _ => Err(Fault::InvalidValue(Expected::Str)),
        },
        Scalar::Unit => Ok(Datum::Unit),
    }
}

/// Decodes `v` as the type `r`, from inside the type at index `bound`.
pub open spec fn decode_ref(s: Schema, bound: nat, r: TypeRef, v: Value) -> Result<Datum, Fault>
    decreases bound, 0nat, 0nat,
{
    match r {
        TypeRef::Scalar(k) => decode_scalar(k, v),
        // A well-formed schema only refers back to earlier types.
        TypeRef::Def(j) => if j < bound {
            decode_type(s, j as nat, v)
        } else {
            Err(Fault::MissingField)
        },
    }
}

/// What field `f` of a record at index `i` contributes when the record is decoded from `v`.
pub open spec fn field_outcome(s: Schema, i: nat, f: FieldSpec, v: Value) -> FieldOutcome
    decreases i, 1nat, 0nat,
{
    if f.skip {
        FieldOutcome::Value(field_default(f))
    } else if f.flatten {
        match decode_ref(s, i, decoder_of(f), v) {
            Ok(d) => FieldOutcome::Value(d),
            Err(e) => match e {
                Fault::NamedFieldErrors(es) => if es.len() > 0 {
                    FieldOutcome::Errors(es)
                } else {
                    FieldOutcome::Fatal(e)
                },
                _ => FieldOutcome::Fatal(e),
            },
        }
    } else {
        match v {
            Value::Object(entries) => match lookup(entries@, f.wire_name@) {
                None => if f.default_on_missing {
                    FieldOutcome::Value(field_default(f))
                } else {
                    FieldOutcome::Errors(seq![(f.wire_name@, Fault::MissingField)])
                },
                Some(x) => match decode_ref(s, i, decoder_of(f), x) {
                    Ok(d) => FieldOutcome::Value(d),
                    Err(e) => FieldOutcome::Errors(seq![(f.wire_name@, e)]),
                },
            },
            _ => FieldOutcome::Fatal(Fault::InvalidValue(Expected::Object)),
        }
    }
}

/// The decode of the first `k` named fields.
pub open spec fn named_prefix(s: Schema, i: nat, fs: Seq<FieldSpec>, v: Value, k: nat) -> Tally<
    Seq<char>,
>
    decreases i, 2nat, k,
{
    if k == 0 {
        Tally::Open(seq![], seq![])
    } else {
        match named_prefix(s, i, fs, v, (k - 1) as nat) {
            Tally::Stopped(e) => Tally::Stopped(e),
            Tally::Open(vals, errs) => match field_outcome(s, i, fs[k - 1], v) {
                FieldOutcome::Value(d) => Tally::Open(vals.push(d), errs),
                FieldOutcome::Errors(es) => Tally::Open(vals, errs + es),
                FieldOutcome::Fatal(e) => Tally::Stopped(e),
            },
        }
    }
}

/// The decode of the first `k` elements of an array against positional types.
pub open spec fn element_prefix(
    s: Schema,
    i: nat,
    ts: Seq<TypeRef>,
    items: Seq<Value>,
    k: nat,
) -> Tally<nat>
    decreases i, 2nat, k,
{
    if k == 0 {
        Tally::Open(seq![], seq![])
    } else {
        match element_prefix(s, i, ts, items, (k - 1) as nat) {
            Tally::Stopped(e) => Tally::Stopped(e),
            Tally::Open(vals, errs) => match decode_ref(s, i, ts[k - 1], items[k - 1]) {
                Ok(d) => Tally::Open(vals.push(d), errs),
                Err(e) => Tally::Open(vals, errs.push(((k - 1) as nat, e))),
            },
        }
    }
}

/// Decodes a record with named fields from a map.
pub open spec fn decode_named(s: Schema, i: nat, fs: Seq<FieldSpec>, v: Value) -> Result<
    Datum,
    Fault,
>
    decreases i, 3nat, 0nat,
{
    match v {
        Value::Object(_) => match named_prefix(s, i, fs, v, fs.len()) {
            Tally::Stopped(e) => Err(e),
            Tally::Open(vals, errs) => if errs.len() > 0 {
                Err(Fault::NamedFieldErrors(errs))
            } else {
                Ok(Datum::Fields(vals))
            },
        },
        _ => Err(Fault::InvalidValue(Expected::Object)),
    }
}

/// Decodes a record with positional fields: nothing is read for none, the whole
/// value for one, and an array for more.
pub open spec fn decode_positional(s: Schema, i: nat, ts: Seq<TypeRef>, v: Value) -> Result<
    Datum,
    Fault,
>
    decreases i, 3nat, 0nat,
{
    if ts.len() == 0 {
        Ok(Datum::Fields(seq![]))
    } else if ts.len() == 1 {
        match decode_ref(s, i, ts[0], v) {
            Ok(d) => Ok(Datum::Fields(seq![d])),
            Err(e) => Err(e),
        }
    } else {
        match v {
            Value::Array(items) => if items@.len() < ts.len() {
                Err(Fault::InvalidValue(Expected::ArrayOfLength(ts.len() as usize)))
            } else {
                match element_prefix(s, i, ts, items@, ts.len()) {
                    Tally::Stopped(e) => Err(e),
                    Tally::Open(vals, errs) => if errs.len() > 0 {
                        Err(Fault::UnnamedFieldErrors(errs))
                    } else {
                        Ok(Datum::Fields(vals))
                    },
                }
            },
            _ => Err(Fault::InvalidValue(Expected::ArrayOfLength(ts.len() as usize))),
        }
    }
}

/// Decodes a variant's payload from its content.
pub open spec fn decode_payload(s: Schema, i: nat, p: Payload, x: Value) -> Result<Datum, Fault>
    decreases i, 4nat, 0nat,
{
    match p {
        Payload::Unit => Ok(Datum::Fields(seq![])),
        Payload::Positional(ts) => decode_positional(s, i, ts@, x),
        Payload::Named(fs) => decode_named(s, i, fs@, x),
    }
}

/// A payload that needs no content.
pub open spec fn payload_is_empty(p: Payload) -> bool {
    match p {
        Payload::Unit => true,
        Payload::Positional(ts) => ts@.len() == 0,
        Payload::Named(fs) => fs@.len() == 0,
    }
}

/// Builds a variant's payload when there is no content; `content` is the
/// content key, if the tagging has one.
pub open spec fn payload_without_content(p: Payload, content: Option<Seq<char>>) -> Result<
    Datum,
    Fault,
> {
    if payload_is_empty(p) {
        Ok(Datum::Fields(seq![]))
    } else {
        match content {
            Some(c) => Err(Fault::NamedFieldErrors(seq![(c, Fault::MissingField)])),
            None => Err(Fault::MissingEnumVariantContent),
        }
    }
}

/// The first variant, from index `k` on, whose wire name is a key of the map.
pub open spec fn first_present(vs: Seq<VariantSpec>, entries: Seq<(String, Value)>, k: nat) -> Option<
    nat,
>
    decreases vs.len() - k,
{
    if k >= vs.len() {
        None
    } else if lookup(entries, vs[k as int].wire_name@) is Some {
        Some(k)
    } else {
        first_present(vs, entries, k + 1)
    }
}

/// The first variant, from index `k` on, with the wire name `name`.
pub open spec fn first_named(vs: Seq<VariantSpec>, name: Seq<char>, k: nat) -> Option<nat>
    decreases vs.len() - k,
{
    if k >= vs.len() {
        None
    } else if vs[k as int].wire_name@ == name {
        Some(k)
    } else {
        first_named(vs, name, k + 1)
    }
}

pub open spec fn as_variant(j: nat, r: Result<Datum, Fault>) -> Result<Datum, Fault> {
    match r {
        Ok(d) => Ok(Datum::Variant(j, Box::new(d))),
        Err(e) => Err(e),
    }
}

/// Decodes an enum under its tagging.
pub open spec fn decode_enum(s: Schema, i: nat, t: Tagging, vs: Seq<VariantSpec>, v: Value) -> Result<
    Datum,
    Fault,
>
    decreases i, 5nat, 0nat,
{
    match t {
        Tagging::External => match v {
            Value::Object(entries) => match first_present(vs, entries@, 0) {
                Some(j) => as_variant(
                    j,
                    decode_payload(
                        s,
                        i,
                        vs[j as int].payload,
                        lookup(entries@, vs[j as int].wire_name@)->Some_0,
                    ),
                ),
                None => Err(Fault::UnknownEnumVariant),
            },
            Value::Str(name) => match first_named(vs, name@, 0) {
                Some(j) => as_variant(j, payload_without_content(vs[j as int].payload, None)),
                None => Err(Fault::UnknownEnumVariant),
            },
            _ => Err(Fault::InvalidValue(Expected::EnumVariant)),
        },
        Tagging::Internal(tag) => match v {
            Value::Object(entries) => match lookup(entries@, tag@) {
                None => Err(Fault::NamedFieldErrors(seq![(tag@, Fault::MissingField)])),
                Some(Value::Str(name)) => match first_named(vs, name@, 0) {
                    Some(j) => as_variant(j, decode_payload(s, i, vs[j as int].payload, v)),
                    None => Err(Fault::UnknownEnumVariant),
                },
                Some(_) => Err(
                    Fault::NamedFieldErrors(
                        seq![(tag@, Fault::InvalidValue(Expected::EnumVariantName))],
                    ),
                ),
            },
            _ => Err(Fault::InvalidValue(Expected::Object)),
        },
        Tagging::Adjacent(tag, content) => match v {
            Value::Object(entries) => match lookup(entries@, tag@) {
                None => Err(Fault::NamedFieldErrors(seq![(tag@, Fault::MissingField)])),
                Some(Value::Str(name)) => match first_named(vs, name@, 0) {
                    Some(j) => match lookup(entries@, content@) {
                        Some(x) => as_variant(j, decode_payload(s, i, vs[j as int].payload, x)),
                        None => as_variant(
                            j,
                            payload_without_content(vs[j as int].payload, Some(content@)),
                        ),
                    },
                    None => Err(Fault::UnknownEnumVariant),
                },
                Some(_) => Err(
                    Fault::NamedFieldErrors(
                        seq![(tag@, Fault::InvalidValue(Expected::EnumVariantName))],
                    ),
                ),
            },
            _ => Err(Fault::InvalidValue(Expected::Object)),
        },
    }
}

/// Decodes `v` as the type at index `i` of the schema.
pub open spec fn decode_type(s: Schema, i: nat, v: Value) -> Result<Datum, Fault>
    decreases i, 6nat, 0nat,
{
    if i < s.types@.len() {
        match s.types@[i as int] {
            Shape::Named(fs) => decode_named(s, i, fs@, v),
            Shape::Positional(ts) => decode_positional(s, i, ts@, v),
            Shape::Unit => Ok(Datum::Fields(seq![])),
            Shape::Enum(t, vs) => decode_enum(s, i, t, vs@, v),
        }
    } else {
        // No type at that index; the exec decoder never asks for one.
        Err(Fault::MissingField)
    }
}

proof fn lemma_datums_push(a: Seq<Decoded>, x: Decoded)
    ensures
        datums(a.push(x)) == datums(a).push(datum_of(x)),
{
    assert(datums(a.push(x)) =~= datums(a).push(datum_of(x)));
}

proof fn lemma_named_push(a: Seq<(String, Error)>, p: (String, Error))
    ensures
        named_faults(a.push(p)) == named_faults(a) + seq![(p.0@, fault_of(p.1))],
{
    assert(named_faults(a.push(p)) =~= named_faults(a) + seq![(p.0@, fault_of(p.1))]);
}

proof fn lemma_named_append(a: Seq<(String, Error)>, b: Seq<(String, Error)>)
    ensures
        named_faults(a + b) == named_faults(a) + named_faults(b),
{
    assert(named_faults(a + b) =~= named_faults(a) + named_faults(b));
}

proof fn lemma_unnamed_push(a: Seq<(usize, Error)>, p: (usize, Error))
    ensures
        unnamed_faults(a.push(p)) == unnamed_faults(a).push((p.0 as nat, fault_of(p.1))),
{
    assert(unnamed_faults(a.push(p)) =~= unnamed_faults(a).push((p.0 as nat, fault_of(p.1))));
}

proof fn lemma_empty_fields(v: Vec<Decoded>)
    requires
        v@.len() == 0,
    ensures
        datum_of(Decoded::Fields(v)) == Datum::Fields(seq![]),
{
    lemma_fields_view(v);
    assert(datums(v@) =~= seq![]);
}

/// Once a field has ended the decode, no later field changes the outcome.
proof fn lemma_named_stopped(s: Schema, i: nat, fs: Seq<FieldSpec>, v: Value, k: nat, m: nat, e: Fault)
    requires
        named_prefix(s, i, fs, v, k) == Tally::<Seq<char>>::Stopped(e),
        k <= m,
    ensures
        named_prefix(s, i, fs, v, m) == Tally::<Seq<char>>::Stopped(e),
    decreases m,
{
    if m > k {
        lemma_named_stopped(s, i, fs, v, k, (m - 1) as nat, e);
    }
}

proof fn lemma_first_present(vs: Seq<VariantSpec>, entries: Seq<(String, Value)>, k: nat)
    ensures
        first_present(vs, entries, k) matches Some(j) ==> k <= j < vs.len() && lookup(
            entries,
            vs[j as int].wire_name@,
        ) is Some,
    decreases vs.len() - k,
{
    if k < vs.len() && lookup(entries, vs[k as int].wire_name@) is None {
        lemma_first_present(vs, entries, k + 1);
    }
}

proof fn lemma_first_named(vs: Seq<VariantSpec>, name: Seq<char>, k: nat)
    ensures
        first_named(vs, name, k) matches Some(j) ==> k <= j < vs.len() && vs[j as int].wire_name@
            == name,
    decreases vs.len() - k,
{
    if k < vs.len() && vs[k as int].wire_name@ != name {
        lemma_first_named(vs, name, k + 1);
    }
}

/// A failure keyed by one field name.
fn single_field_error(key: &String, e: Error) -> (r: Error)
    ensures
        fault_of(r) == Fault::NamedFieldErrors(seq![(key@, fault_of(e))]),
{
    let mut es: Vec<(String, Error)> = Vec::new();
    es.push((key.clone(), e));
    proof {
        lemma_named_view(es);
        assert(named_faults(es@) =~= seq![(key@, fault_of(e))]);
    }
    Error::NamedFieldErrors(es)
}

/// A copy of a decoded value.
pub fn copy_decoded(d: &Decoded) -> (r: Decoded)
    ensures
        datum_of(r) == datum_of(*d),
    decreases d,
{
    match d {
        Decoded::Unit => Decoded::Unit,
        Decoded::Bool(b) => Decoded::Bool(*b),
        Decoded::Int(n) => Decoded::Int(*n),
        Decoded::Str(s) => Decoded::Str(s.clone()),
        Decoded::Fields(v) => {
            assert(decreases_to!(*d => *v));
            let mut out: Vec<Decoded> = Vec::new();
            let n = v.len();
            let mut k: usize = 0;
            while k < n
                invariant
                    n == v@.len(),
                    k <= n,
                    decreases_to!(*d => *v),
                    datums(out@) == datums(v@.subrange(0, k as int)),
                decreases n - k,
            {
                proof {
                    vstd::std_specs::vec::axiom_vec_index_decreases(*v, k as int);
                    assert(decreases_to!(*d => v[k as int]));

                }
                let c = copy_decoded(&v[k]);
                proof {
                    lemma_datums_push(out@, c);
                    assert(v@.subrange(0, k + 1) =~= v@.subrange(0, k as int).push(v@[k as int]));
                    lemma_datums_push(v@.subrange(0, k as int), v@[k as int]);
                }
                out.push(c);
                k += 1;
            }
            proof {
                assert(v@.subrange(0, n as int) =~= v@);
                lemma_fields_view(out);
                lemma_fields_view(*v);
            }
            Decoded::Fields(out)
        },
        Decoded::Variant(j, p) => Decoded::Variant(*j, Box::new(copy_decoded(p))),
    }
}

fn field_default_value(f: &FieldSpec) -> (d: Decoded)
    ensures
        datum_of(d) == field_default(*f),
{
    match &f.default_value {
        Some(x) => copy_decoded(x),
        None => default_value(f.ty),
    }
}

fn default_value(r: TypeRef) -> (d: Decoded)
    ensures
        datum_of(d) == default_of(r),
{
    match r {
        TypeRef::Scalar(k) => match k {
            Scalar::Bool => Decoded::Bool(false),
            Scalar::I64 => Decoded::Int(0),
            Scalar::U32 => Decoded::Int(0),
            Scalar::Str => Decoded::Str(String::new()),
            Scalar::Unit => Decoded::Unit,
        },
        TypeRef::Def(_) => Decoded::Unit,
    }
}

/// Decodes a scalar, as serde-lite's own decoders for `bool`, `i64`, `u32`,
/// `String` and `()` do.
pub fn decode_scalar_value(k: Scalar, v: &Value) -> (r: Result<Decoded, Error>)
    ensures
        result_view(r) == decode_scalar(k, *v),
{
    match k {
        Scalar::Bool => match v {
            Value::Bool(b) => Ok(Decoded::Bool(*b)),
            _ => Err(Error::InvalidValue(Expected::Bool)),
        },
        Scalar::I64 => match v {
            Value::Int(n) => Ok(Decoded::Int(*n)),
            Value::UInt(n) => if *n <= i64::MAX as u64 {
                Ok(Decoded::Int(*n as i64))
            } else {
                Err(Error::OutOfBounds)
            },
            Value::Float => Err(Error::UnsupportedConversion),
            _ => Err(Error::InvalidValue(Expected::Integer)),
        },
        Scalar::U32 => match v {
            Value::Int(n) => if 0 <= *n && *n <= u32::MAX as i64 {
                Ok(Decoded::Int(*n))
            } else {
                Err(Error::OutOfBounds)
            },
            Value::UInt(n) => if *n <= u32::MAX as u64 {
                Ok(Decoded::Int(*n as i64))
            } else {
                Err(Error::OutOfBounds)
            },
            Value::Float => Err(Error::UnsupportedConversion),
            _ => Err(Error::InvalidValue(Expected::UnsignedInteger)),
        },
        Scalar::Str => match v {
            Value::Str(s) => Ok(Decoded::Str(s.clone())),
            _ => Err(Error::InvalidValue(Expected::Str)),
        },
        Scalar::Unit => Ok(Decoded::Unit),
    }
}

fn decode_ref_value(s: &Schema, bound: usize, r: TypeRef, v: &Value) -> (res: Result<
    Decoded,
    Error,
>)
    requires
        s.wf(),
        bound <= s.types@.len(),
        ref_below(r, bound as int),
    ensures
        result_view(res) == decode_ref(*s, bound as nat, r, *v),
    decreases bound, 0nat, 0nat,
{
    match r {
        TypeRef::Scalar(k) => decode_scalar_value(k, v),
        TypeRef::Def(j) => decode(s, j, v),
    }
}

/// Decodes one named field, adding its value or its failures to those so far.
fn decode_field(
    s: &Schema,
    i: usize,
    f: &FieldSpec,
    v: &Value,
    vals: &mut Vec<Decoded>,
    errs: &mut Vec<(String, Error)>,
) -> (r: Result<(), Error>)
    requires
        s.wf(),
        i < s.types@.len(),
        field_wf(*f, i as int),
    ensures
        match field_outcome(*s, i as nat, *f, *v) {
            FieldOutcome::Value(d) => r is Ok && datums(final(vals)@) == datums(old(vals)@).push(d)
                && named_faults(final(errs)@) == named_faults(old(errs)@),
            FieldOutcome::Errors(es) => r is Ok && datums(final(vals)@) == datums(old(vals)@)
                && named_faults(final(errs)@) == named_faults(old(errs)@) + es,
            FieldOutcome::Fatal(e) => r matches Err(x) && fault_of(x) == e,
        },
    decreases i, 1nat, 0nat,
{
    let dec = match f.decoder {
        Some(d) => d,
        None => f.ty,
    };
    if f.skip {
        let d = field_default_value(f);
        proof {
            lemma_datums_push(vals@, d);
        }
        vals.push(d);
        return Ok(());
    }
    if f.flatten {
        return match decode_ref_value(s, i, dec, v) {
            Ok(d) => {
                proof {
                    lemma_datums_push(vals@, d);
                }
                vals.push(d);
                Ok(())
            },
            Err(e) => match e {
                Error::NamedFieldErrors(mut es) => {
                    proof {
                        lemma_named_view(es);
                    }
                    if es.len() > 0 {
                        proof {
                            lemma_named_append(errs@, es@);
                        }
                        errs.append(&mut es);
                        Ok(())
                    } else {
                        Err(Error::NamedFieldErrors(es))
                    }
                },
                other => Err(other),
            },
        };
    }
    match v {
        Value::Object(entries) => match get(entries, &f.wire_name) {
            None => {
                if f.default_on_missing {
                    let d = field_default_value(f);
                    proof {
                        lemma_datums_push(vals@, d);
                    }
                    vals.push(d);
                } else {
                    let p = (f.wire_name.clone(), Error::MissingField);
                    proof {
                        lemma_named_push(errs@, p);
                    }
                    errs.push(p);
                }
                Ok(())
            },
            Some(x) => {
                match decode_ref_value(s, i, dec, x) {
                    Ok(d) => {
                        proof {
                            lemma_datums_push(vals@, d);
                        }
                        vals.push(d);
                    },
                    Err(e) => {
                        let p = (f.wire_name.clone(), e);
                        proof {
                            lemma_named_push(errs@, p);
                        }
                        errs.push(p);
                    },
                }
                Ok(())
            },
        },
        _ => Err(Error::InvalidValue(Expected::Object)),
    }
}

/// Decodes a record with named fields from a map, attempting every field
/// before failing with all the field failures together.
pub fn decode_named_fields(s: &Schema, i: usize, fs: &Vec<FieldSpec>, v: &Value) -> (r: Result<
    Decoded,
    Error,
>)
    requires
        s.wf(),
        i < s.types@.len(),
        fields_wf(fs@, i as int),
    ensures
        result_view(r) == decode_named(*s, i as nat, fs@, *v),
    decreases i, 3nat, 0nat,
{
    match v {
        Value::Object(_) => {},
        _ => {
            return Err(Error::InvalidValue(Expected::Object));
        },
    }
    let mut vals: Vec<Decoded> = Vec::new();
    let mut errs: Vec<(String, Error)> = Vec::new();
    let n = fs.len();
    let mut k: usize = 0;
    assert(datums(vals@) =~= seq![]);
    assert(named_faults(errs@) =~= seq![]);
    while k < n
        invariant
            n == fs@.len(),
            k <= n,
            s.wf(),
            i < s.types@.len(),
            fields_wf(fs@, i as int),
            *v is Object,
            named_prefix(*s, i as nat, fs@, *v, k as nat) == Tally::<Seq<char>>::Open(
                datums(vals@),
                named_faults(errs@),
            ),
        decreases n - k,
    {
        assert(field_wf(fs@[k as int], i as int));
        match decode_field(s, i, &fs[k], v, &mut vals, &mut errs) {
            Ok(()) => {},
            Err(e) => {
                proof {
                    assert(field_outcome(*s, i as nat, fs@[k as int], *v) is Fatal);
                    assert(named_prefix(*s, i as nat, fs@, *v, (k + 1) as nat) == Tally::<
                        Seq<char>,
                    >::Stopped(fault_of(e)));
                    lemma_named_stopped(*s, i as nat, fs@, *v, (k + 1) as nat, n as nat, fault_of(e));
                }
                return Err(e);
            },
        }
        k += 1;
    }
    if errs.len() > 0 {
        proof {
            lemma_named_view(errs);
        }
        Err(Error::NamedFieldErrors(errs))
    } else {
        proof {
            lemma_fields_view(vals);
        }
        Ok(Decoded::Fields(vals))
    }
}

/// Decodes a record with positional fields.
pub fn decode_positional_fields(s: &Schema, i: usize, ts: &Vec<TypeRef>, v: &Value) -> (r: Result<
    Decoded,
    Error,
>)
    requires
        s.wf(),
        i < s.types@.len(),
        refs_wf(ts@, i as int),
    ensures
        result_view(r) == decode_positional(*s, i as nat, ts@, *v),
    decreases i, 3nat, 0nat,
{
    let n = ts.len();
    if n == 0 {
        let out: Vec<Decoded> = Vec::new();
        proof {
            lemma_empty_fields(out);
        }
        return Ok(Decoded::Fields(out));
    }
    if n == 1 {
        assert(ref_below(ts@[0], i as int));
        return match decode_ref_value(s, i, ts[0], v) {
            Ok(d) => {
                let mut out: Vec<Decoded> = Vec::new();
                out.push(d);
                proof {
                    lemma_fields_view(out);
                    assert(datums(out@) =~= seq![datum_of(d)]);
                }
                Ok(Decoded::Fields(out))
            },
            Err(e) => Err(e),
        };
    }
    match v {
        Value::Array(items) => {
            if items.len() < n {
                return Err(Error::InvalidValue(Expected::ArrayOfLength(n)));
            }
            let mut vals: Vec<Decoded> = Vec::new();
            let mut errs: Vec<(usize, Error)> = Vec::new();
            let mut k: usize = 0;
            assert(datums(vals@) =~= seq![]);
            assert(unnamed_faults(errs@) =~= seq![]);
            while k < n
                invariant
                    n == ts@.len(),
                    n <= items@.len(),
                    k <= n,
                    s.wf(),
                    i < s.types@.len(),
                    refs_wf(ts@, i as int),
                    element_prefix(*s, i as nat, ts@, items@, k as nat) == Tally::<nat>::Open(
                        datums(vals@),
                        unnamed_faults(errs@),
                    ),
                decreases n - k,
            {
                assert(ref_below(ts@[k as int], i as int));
                match decode_ref_value(s, i, ts[k], &items[k]) {
                    Ok(d) => {
                        proof {
                            lemma_datums_push(vals@, d);
                        }
                        vals.push(d);
                    },
                    Err(e) => {
                        proof {
                            lemma_unnamed_push(errs@, (k, e));
                        }
                        errs.push((k, e));
                    },
                }
                k += 1;
            }
            if errs.len() > 0 {
                proof {
                    lemma_unnamed_view(errs);
                }
                Err(Error::UnnamedFieldErrors(errs))
            } else {
                proof {
                    lemma_fields_view(vals);
                }
                Ok(Decoded::Fields(vals))
            }
        },
        _ => Err(Error::InvalidValue(Expected::ArrayOfLength(n))),
    }
}

/// Decodes a variant's payload from its content.
fn decode_payload_value(s: &Schema, i: usize, p: &Payload, x: &Value) -> (r: Result<
    Decoded,
    Error,
>)
    requires
        s.wf(),
        i < s.types@.len(),
        payload_wf(*p, i as int),
    ensures
        result_view(r) == decode_payload(*s, i as nat, *p, *x),
    decreases i, 4nat, 0nat,
{
    match p {
        Payload::Unit => {
            let out: Vec<Decoded> = Vec::new();
            proof {
                lemma_empty_fields(out);
            }
            Ok(Decoded::Fields(out))
        },
        Payload::Positional(ts) => decode_positional_fields(s, i, ts, x),
        Payload::Named(fs) => decode_named_fields(s, i, fs, x),
    }
}

/// Builds a variant's payload where the input holds no content for it.
pub fn payload_without_content_value(p: &Payload, content: Option<&String>) -> (r: Result<
    Decoded,
    Error,
>)
    ensures
        result_view(r) == payload_without_content(
            *p,
            match content {
                Some(c) => Some(c@),
                None => None,
            },
        ),
{
    let empty = match p {
        Payload::Unit => true,
        Payload::Positional(ts) => ts.len() == 0,
        Payload::Named(fs) => fs.len() == 0,
    };
    if empty {
        let out: Vec<Decoded> = Vec::new();
        proof {
            lemma_empty_fields(out);
        }
        Ok(Decoded::Fields(out))
    } else {
        match content {
            Some(c) => Err(single_field_error(c, Error::MissingField)),
            None => Err(Error::MissingEnumVariantContent),
        }
    }
}

fn find_present(vs: &Vec<VariantSpec>, entries: &Vec<(String, Value)>) -> (r: Option<usize>)
    ensures
        match r {
            Some(j) => first_present(vs@, entries@, 0) == Some(j as nat) && j < vs@.len(),
            None => first_present(vs@, entries@, 0) is None,
        },
{
    let n = vs.len();
    let mut k: usize = 0;
    while k < n
        invariant
            n == vs@.len(),
            k <= n,
            first_present(vs@, entries@, 0) == first_present(vs@, entries@, k as nat),
        decreases n - k,
    {
        if get(entries, &vs[k].wire_name).is_some() {
            return Some(k);
        }
        k += 1;
    }
    None
}

fn find_named(vs: &Vec<VariantSpec>, name: &String) -> (r: Option<usize>)
    ensures
        match r {
            Some(j) => first_named(vs@, name@, 0) == Some(j as nat) && j < vs@.len(),
            None => first_named(vs@, name@, 0) is None,
        },
{
    let n = vs.len();
    let mut k: usize = 0;
    while k < n
        invariant
            n == vs@.len(),
            k <= n,
            first_named(vs@, name@, 0) == first_named(vs@, name@, k as nat),
        decreases n - k,
    {
        if vs[k].wire_name == *name {
            return Some(k);
        }
        k += 1;
    }
    None
}

fn into_variant(j: usize, r: Result<Decoded, Error>) -> (out: Result<Decoded, Error>)
    ensures
        result_view(out) == as_variant(j as nat, result_view(r)),
{
    match r {
        Ok(d) => Ok(Decoded::Variant(j, Box::new(d))),
        Err(e) => Err(e),
    }
}

/// Decodes an enum under its tagging.
pub fn decode_enum_value(
    s: &Schema,
    i: usize,
    t: &Tagging,
    vs: &Vec<VariantSpec>,
    v: &Value,
) -> (r: Result<Decoded, Error>)
    requires
        s.wf(),
        i < s.types@.len(),
        forall|k: int| 0 <= k < vs@.len() ==> #[trigger] payload_wf(vs@[k].payload, i as int),
    ensures
        result_view(r) == decode_enum(*s, i as nat, *t, vs@, *v),
    decreases i, 5nat, 0nat,
{
    match t {
        Tagging::External => match v {
            Value::Object(entries) => match find_present(vs, entries) {
                Some(j) => {
                    proof {
                        lemma_first_present(vs@, entries@, 0);
                    }
                    let x = get(entries, &vs[j].wire_name);
                    match x {
                        Some(x) => {
                            assert(payload_wf(vs@[j as int].payload, i as int));
                            into_variant(j, decode_payload_value(s, i, &vs[j].payload, x))
                        },
                        None => Err(Error::UnknownEnumVariant),
                    }
                },
                None => Err(Error::UnknownEnumVariant),
            },
            Value::Str(name) => match find_named(vs, name) {
                Some(j) => into_variant(j, payload_without_content_value(&vs[j].payload, None)),
                None => Err(Error::UnknownEnumVariant),
            },
            _ => Err(Error::InvalidValue(Expected::EnumVariant)),
        },
        Tagging::Internal(tag) => match v {
            Value::Object(entries) => match get(entries, tag) {
                None => Err(single_field_error(tag, Error::MissingField)),
                Some(Value::Str(name)) => match find_named(vs, name) {
                    Some(j) => {
                        assert(payload_wf(vs@[j as int].payload, i as int));
                        into_variant(j, decode_payload_value(s, i, &vs[j].payload, v))
                    },
                    None => Err(Error::UnknownEnumVariant),
                },
                Some(_) => Err(
                    single_field_error(tag, Error::InvalidValue(Expected::EnumVariantName)),
                ),
            },
            _ => Err(Error::InvalidValue(Expected::Object)),
        },
        Tagging::Adjacent(tag, content) => match v {
            Value::Object(entries) => match get(entries, tag) {
                None => Err(single_field_error(tag, Error::MissingField)),
                Some(Value::Str(name)) => match find_named(vs, name) {
                    Some(j) => {
                        assert(payload_wf(vs@[j as int].payload, i as int));
                        match get(entries, content) {
                            Some(x) => into_variant(
                                j,
                                decode_payload_value(s, i, &vs[j].payload, x),
                            ),
                            None => into_variant(
                                j,
                                payload_without_content_value(&vs[j].payload, Some(content)),
                            ),
                        }
                    },
                    None => Err(Error::UnknownEnumVariant),
                },
                Some(_) => Err(
                    single_field_error(tag, Error::InvalidValue(Expected::EnumVariantName)),
                ),
            },
            _ => Err(Error::InvalidValue(Expected::Object)),
        },
    }
}

/// Decodes `v` as the type at index `i` of the schema.
pub fn decode(s: &Schema, i: usize, v: &Value) -> (r: Result<Decoded, Error>)
    requires
        s.wf(),
        i < s.types@.len(),
    ensures
        result_view(r) == decode_type(*s, i as nat, *v),
    decreases i, 6nat, 0nat,
{
    assert(shape_wf(s.types@[i as int], i as int));
    match &s.types[i] {
        Shape::Named(fs) => decode_named_fields(s, i, fs, v),
        Shape::Positional(ts) => decode_positional_fields(s, i, ts, v),
        Shape::Unit => {
            let out: Vec<Decoded> = Vec::new();
            proof {
                lemma_empty_fields(out);
            }
            Ok(Decoded::Fields(out))
        },
        Shape::Enum(t, vs) => decode_enum_value(s, i, t, vs, v),
    }
}

} // verus!
