use vstd::prelude::*;

verus! {

/// A generic semi-structured value: the input of every decode operation.
#[derive(Debug, PartialEq)]
pub enum Value {
    Null,
    Bool(bool),
    /// A signed integer.
    Int(i64),
    /// An unsigned integer.
    UInt(u64),
    /// A floating-point number, which no type of a schema reads.
    Float,
    Str(String),
    Array(Vec<Value>),
    Object(Vec<(String, Value)>),
}

/// The value stored under `key` among map entries: the first entry with that key.
pub open spec fn lookup(entries: Seq<(String, Value)>, key: Seq<char>) -> Option<Value>
    decreases entries.len(),
{
    if entries.len() == 0 {
        None
    } else if entries[0].0@ == key {
        Some(entries[0].1)
    } else {
        lookup(entries.drop_first(), key)
    }
}

/// Looks `key` up among map entries.
pub fn get<'a>(entries: &'a Vec<(String, Value)>, key: &String) -> (r: Option<&'a Value>)
    ensures
        match r {
            Some(x) => lookup(entries@, key@) == Some(*x),
            None => lookup(entries@, key@) is None,
        },
{
    let n = entries.len();
    let mut i: usize = 0;
    assert(entries@.subrange(0, n as int) =~= entries@);
    while i < n
        invariant
            n == entries@.len(),
            0 <= i <= n,
            lookup(entries@.subrange(i as int, n as int), key@) == lookup(entries@, key@),
        decreases n - i,
    {
        let ghost rest = entries@.subrange(i as int, n as int);
        assert(rest.drop_first() =~= entries@.subrange(i + 1, n as int));
        if entries[i].0 == *key {
            return Some(&entries[i].1);
        }
        i += 1;
    }
    assert(entries@.subrange(n as int, n as int).len() == 0);
    None
}

/// A decoded, typed value.
#[derive(Debug, PartialEq)]
pub enum Decoded {
    Unit,
    Bool(bool),
    Int(i64),
    Str(String),
    /// The fields of a record or a tuple, in declaration order.
    Fields(Vec<Decoded>),
    /// The variant at the given declaration index, with its payload.
    Variant(usize, Box<Decoded>),
}

/// The mathematical model of a decoded value.
pub enum Datum {
    Unit,
    Bool(bool),
    Int(int),
    Str(Seq<char>),
    Fields(Seq<Datum>),
    Variant(nat, Box<Datum>),
}

pub open spec fn datum_of(d: Decoded) -> Datum
    decreases d,
{
    match d {
        Decoded::Unit => Datum::Unit,
        Decoded::Bool(b) => Datum::Bool(b),
        Decoded::Int(n) => Datum::Int(n as int),
        Decoded::Str(s) => Datum::Str(s@),
        Decoded::Fields(v) => Datum::Fields(
            v@.map(
                |i: int, x: Decoded|
                    if 0 <= i < v@.len() && x == v@[i] {
                        datum_of(x)
                    } else {
                        Datum::Unit
                    },
            ),
        ),
        Decoded::Variant(k, p) => Datum::Variant(k as nat, Box::new(datum_of(*p))),
    }
}

/// The models of a sequence of decoded values.
pub open spec fn datums(v: Seq<Decoded>) -> Seq<Datum> {
    v.map_values(|x: Decoded| datum_of(x))
}

impl View for Decoded {
    type V = Datum;

    open spec fn view(&self) -> Datum {
        datum_of(*self)
    }
}

pub proof fn lemma_fields_view(v: Vec<Decoded>)
    ensures
        datum_of(Decoded::Fields(v)) == Datum::Fields(datums(v@)),
{
    let d = datum_of(Decoded::Fields(v));
    assert(d->Fields_0 =~= datums(v@));
}

} // verus!
