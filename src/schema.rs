use vstd::prelude::*;

use crate::value::Decoded;

verus! {

/// A type whose decoding the schema does not describe further.
#[derive(Clone, Copy, Debug, PartialEq, Eq, Structural)]
pub enum Scalar {
    Bool,
    I64,
    U32,
    Str,
    /// The unit type; every value decodes to it.
    Unit,
}

/// The type of a field: a scalar, or the type at an index of the schema.
#[derive(Clone, Copy, Debug, PartialEq, Eq, Structural)]
pub enum TypeRef {
    Scalar(Scalar),
    Def(usize),
}

/// The resolved configuration of a named field.
#[derive(Debug, PartialEq)]
pub struct FieldSpec {
    /// The key under which the field is looked up.
    pub wire_name: String,
    pub ty: TypeRef,
    /// A decoder that replaces the type's own.
    pub decoder: Option<TypeRef>,
    /// Never read from input; always the type's default value.
    pub skip: bool,
    /// A missing key is no error; the type's default value is used.
    pub default_on_missing: bool,
    /// The field's decoder reads the whole enclosing value.
    pub flatten: bool,
    /// The default value of the field's type, where that type is one of the
    /// schema's; a scalar type has its own.
    pub default_value: Option<Decoded>,
}

/// The payload of an enum variant.
#[derive(Debug, PartialEq)]
pub enum Payload {
    Unit,
    Positional(Vec<TypeRef>),
    Named(Vec<FieldSpec>),
}

#[derive(Debug, PartialEq)]
pub struct VariantSpec {
    pub wire_name: String,
    pub payload: Payload,
}

/// Where an enum's variant selector lives.
#[derive(Debug, PartialEq)]
pub enum Tagging {
    /// The variant name is the value itself, or a key of a map that holds the
    /// payload; among several such keys the first declared variant's wins.
    External,
    /// The variant name is under the tag key, beside the payload's fields.
    Internal(String),
    /// The variant name is under the tag key, the payload under the content key.
    Adjacent(String, String),
}

/// The shape of a type.
#[derive(Debug, PartialEq)]
pub enum Shape {
    Named(Vec<FieldSpec>),
    Positional(Vec<TypeRef>),
    Unit,
    Enum(Tagging, Vec<VariantSpec>),
}

/// A set of types; a type refers to others by their index.
#[derive(Debug, PartialEq)]
pub struct Schema {
    pub types: Vec<Shape>,
}

/// The decoder that a field uses.
pub open spec fn decoder_of(f: FieldSpec) -> TypeRef {
    match f.decoder {
        Some(d) => d,
        None => f.ty,
    }
}

/// A reference that a type at index `i` may hold: types refer only to earlier ones.
pub open spec fn ref_below(r: TypeRef, i: int) -> bool {
    match r {
        TypeRef::Scalar(_) => true,
        TypeRef::Def(j) => j < i,
    }
}

pub open spec fn field_wf(f: FieldSpec, i: int) -> bool {
    &&& ref_below(f.ty, i)
    &&& ref_below(decoder_of(f), i)
    &&& (f.skip || f.default_on_missing) && f.ty is Def ==> f.default_value is Some
}

pub open spec fn fields_wf(fs: Seq<FieldSpec>, i: int) -> bool {
    forall|k: int| 0 <= k < fs.len() ==> #[trigger] field_wf(fs[k], i)
}

pub open spec fn refs_wf(ts: Seq<TypeRef>, i: int) -> bool {
    forall|k: int| 0 <= k < ts.len() ==> #[trigger] ref_below(ts[k], i)
}

pub open spec fn payload_wf(p: Payload, i: int) -> bool {
    match p {
        Payload::Unit => true,
        Payload::Positional(ts) => refs_wf(ts@, i),
        Payload::Named(fs) => fields_wf(fs@, i),
    }
}

pub open spec fn shape_wf(sh: Shape, i: int) -> bool {
    match sh {
        Shape::Named(fs) => fields_wf(fs@, i),
        Shape::Positional(ts) => refs_wf(ts@, i),
        Shape::Unit => true,
        Shape::Enum(_, vs) => vs@.len() > 0 && forall|k: int|
            0 <= k < vs@.len() ==> #[trigger] payload_wf(vs@[k].payload, i),
    }
}

impl Schema {
    /// Every type refers only to types before it, every field that may be left
    /// out of the input has a scalar type, and every enum has a variant.
    pub open spec fn wf(&self) -> bool {
        forall|i: int| 0 <= i < self.types@.len() ==> #[trigger] shape_wf(self.types@[i], i)
    }
}

fn ref_is_below(r: TypeRef, i: usize) -> (b: bool)
    ensures
        b == ref_below(r, i as int),
{
    match r {
        TypeRef::Scalar(_) => true,
        TypeRef::Def(j) => j < i,
    }
}

fn fields_are_wf(fs: &Vec<FieldSpec>, i: usize) -> (b: bool)
    ensures
        b == fields_wf(fs@, i as int),
{
    let n = fs.len();
    let mut k: usize = 0;
    while k < n
        invariant
            n == fs@.len(),
            k <= n,
            forall|o: int| 0 <= o < k ==> #[trigger] field_wf(fs@[o], i as int),
        decreases n - k,
    {
        let f = &fs[k];
        let dec = match f.decoder {
            Some(d) => d,
            None => f.ty,
        };
        let has_default = match f.ty {
            TypeRef::Scalar(_) => true,
            TypeRef::Def(_) => f.default_value.is_some(),
        };
        if !ref_is_below(f.ty, i) || !ref_is_below(dec, i) || ((f.skip || f.default_on_missing)
            && !has_default) {
            assert(!field_wf(fs@[k as int], i as int));
            return false;
        }
        k += 1;
    }
    true
}

fn refs_are_wf(ts: &Vec<TypeRef>, i: usize) -> (b: bool)
    ensures
        b == refs_wf(ts@, i as int),
{
    let n = ts.len();
    let mut k: usize = 0;
    while k < n
        invariant
            n == ts@.len(),
            k <= n,
            forall|o: int| 0 <= o < k ==> #[trigger] ref_below(ts@[o], i as int),
        decreases n - k,
    {
        if !ref_is_below(ts[k], i) {
            return false;
        }
        k += 1;
    }
    true
}

fn payload_is_wf(p: &Payload, i: usize) -> (b: bool)
    ensures
        b == payload_wf(*p, i as int),
{
    match p {
        Payload::Unit => true,
        Payload::Positional(ts) => refs_are_wf(ts, i),
        Payload::Named(fs) => fields_are_wf(fs, i),
    }
}

fn shape_is_wf(sh: &Shape, i: usize) -> (b: bool)
    ensures
        b == shape_wf(*sh, i as int),
{
    match sh {
        Shape::Named(fs) => fields_are_wf(fs, i),
        Shape::Positional(ts) => refs_are_wf(ts, i),
        Shape::Unit => true,
        Shape::Enum(_, vs) => {
            let n = vs.len();
            if n == 0 {
                return false;
            }
            let mut k: usize = 0;
            while k < n
                invariant
                    n == vs@.len(),
                    k <= n,
                    *sh is Enum,
                    sh->Enum_1 == *vs,
                    forall|o: int| 0 <= o < k ==> #[trigger] payload_wf(vs@[o].payload, i as int),
                decreases n - k,
            {
                if !payload_is_wf(&vs[k].payload, i) {
                    assert(!payload_wf(vs@[k as int].payload, i as int));
                    return false;
                }
                k += 1;
            }
            true
        },
    }
}

impl Schema {
    /// Checks the schema before any decode; an enum without variants, for one,
    /// is refused here.
    pub fn is_well_formed(&self) -> (b: bool)
        ensures
            b == self.wf(),
    {
        let n = self.types.len();
        let mut k: usize = 0;
        while k < n
            invariant
                n == self.types@.len(),
                k <= n,
                forall|o: int| 0 <= o < k ==> #[trigger] shape_wf(self.types@[o], o),
            decreases n - k,
        {
            if !shape_is_wf(&self.types[k], k) {
                return false;
            }
            k += 1;
        }
        true
    }
}

} // verus!
