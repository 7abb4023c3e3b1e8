use vstd::prelude::*;

verus! {

/// What a value was expected to be when it was found to be something else.
#[derive(Clone, Copy, Debug, PartialEq, Eq, Structural)]
pub enum Expected {
    Object,
    ArrayOfLength(usize),
    EnumVariant,
    EnumVariantName,
    Bool,
    Integer,
    UnsignedInteger,
    Str,
}

/// A decode failure, nested as the decoded shape is.
#[derive(Debug, PartialEq)]
pub enum Error {
    /// A number outside the range of the integer type it was read as.
    OutOfBounds,
    /// A floating-point number read as an integer.
    UnsupportedConversion,
    MissingField,
    InvalidValue(Expected),
    UnknownEnumVariant,
    MissingEnumVariantContent,
    /// Failures keyed by field wire name, in the order they were found.
    NamedFieldErrors(Vec<(String, Error)>),
    /// Failures keyed by element index, in the order they were found.
    UnnamedFieldErrors(Vec<(usize, Error)>),
}

/// The mathematical model of a decode failure.
pub enum Fault {
    OutOfBounds,
    UnsupportedConversion,
    MissingField,
    InvalidValue(Expected),
    UnknownEnumVariant,
    MissingEnumVariantContent,
    NamedFieldErrors(Seq<(Seq<char>, Fault)>),
    UnnamedFieldErrors(Seq<(nat, Fault)>),
}

pub open spec fn fault_of(e: Error) -> Fault
    decreases e,
{
    match e {
        Error::OutOfBounds => Fault::OutOfBounds,
        Error::UnsupportedConversion => Fault::UnsupportedConversion,
        Error::MissingField => Fault::MissingField,
        Error::InvalidValue(x) => Fault::InvalidValue(x),
        Error::UnknownEnumVariant => Fault::UnknownEnumVariant,
        Error::MissingEnumVariantContent => Fault::MissingEnumVariantContent,
        Error::NamedFieldErrors(v) => Fault::NamedFieldErrors(
            v@.map(
                |i: int, p: (String, Error)|
                    if 0 <= i < v@.len() && p == v@[i] {
                        (p.0@, fault_of(p.1))
                    } else {
                        (p.0@, Fault::MissingField)
                    },
            ),
        ),
        Error::UnnamedFieldErrors(v) => Fault::UnnamedFieldErrors(
            v@.map(
                |i: int, p: (usize, Error)|
                    if 0 <= i < v@.len() && p == v@[i] {
                        (p.0 as nat, fault_of(p.1))
                    } else {
                        (p.0 as nat, Fault::MissingField)
                    },
            ),
        ),
    }
}

/// The models of a list of failures keyed by wire name.
pub open spec fn named_faults(v: Seq<(String, Error)>) -> Seq<(Seq<char>, Fault)> {
    v.map_values(|p: (String, Error)| (p.0@, fault_of(p.1)))
}

/// The models of a list of failures keyed by index.
pub open spec fn unnamed_faults(v: Seq<(usize, Error)>) -> Seq<(nat, Fault)> {
    v.map_values(|p: (usize, Error)| (p.0 as nat, fault_of(p.1)))
}

impl View for Error {
    type V = Fault;

    open spec fn view(&self) -> Fault {
        fault_of(*self)
    }
}

pub proof fn lemma_named_view(v: Vec<(String, Error)>)
    ensures
        fault_of(Error::NamedFieldErrors(v)) == Fault::NamedFieldErrors(named_faults(v@)),
{
    let f = fault_of(Error::NamedFieldErrors(v));
    assert(f->NamedFieldErrors_0 =~= named_faults(v@));
}

pub proof fn lemma_unnamed_view(v: Vec<(usize, Error)>)
    ensures
        fault_of(Error::UnnamedFieldErrors(v)) == Fault::UnnamedFieldErrors(unnamed_faults(v@)),
{
    let f = fault_of(Error::UnnamedFieldErrors(v));
    assert(f->UnnamedFieldErrors_0 =~= unnamed_faults(v@));
}

} // verus!
