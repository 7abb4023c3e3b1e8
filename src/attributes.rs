//! Resolution of per-field, per-variant and per-type annotations.
//!
//! An annotation list holds the entries of every `serde(...)` annotation of an
//! item, in the order they are written; each entry is a bare flag (`skip`), a
//! name with a value (`rename = "x"`), or a nested list.
use vstd::prelude::*;

use syn::parse::Parser;
use syn::punctuated::Punctuated;
use syn::token::Comma;
use syn::{Expr, ExprLit, Lit, Meta};

use crate::schema::{FieldSpec, Payload, Tagging, TypeRef, VariantSpec};
use crate::value::Decoded;

verus! {

/// The value of one annotation entry.
#[derive(Debug, PartialEq)]
pub enum AttrValue {
    /// A bare name, such as `skip`.
    Flag,
    /// A string literal, such as `rename = "x"`.
    Str(String),
    /// Any other value, such as `rename = 3`.
    Other,
    /// A nested list, such as `rename(a = "x")`; neither a flag nor a value.
    List,
}

/// One annotation entry.
#[derive(Debug, PartialEq)]
pub struct Attr {
    pub name: String,
    pub value: AttrValue,
}

/// An annotation set that no code can be generated from.
#[derive(Debug, PartialEq)]
pub enum AttrError {
    /// An annotation, by name, whose value had to be a string literal and was not.
    NotAString(String),
    /// An enum that names a content key without a tag key.
    ContentWithoutTag,
}

/// The model of an annotation error.
pub enum AttrFault {
    NotAString(Seq<char>),
    ContentWithoutTag,
}

pub open spec fn attr_fault(e: AttrError) -> AttrFault {
    match e {
        AttrError::NotAString(n) => AttrFault::NotAString(n@),
        AttrError::ContentWithoutTag => AttrFault::ContentWithoutTag,
    }
}

/// The value of the last entry named `name` that has a value.
pub open spec fn last_value(attrs: Seq<Attr>, name: Seq<char>) -> Option<AttrValue>
    decreases attrs.len(),
{
    if attrs.len() == 0 {
        None
    } else if attrs.last().name@ == name && (attrs.last().value is Str || attrs.last().value is Other) {
        Some(attrs.last().value)
    } else {
        last_value(attrs.drop_last(), name)
    }
}

/// Whether some entry is the bare flag `name`.
pub open spec fn flag_set(attrs: Seq<Attr>, name: Seq<char>) -> bool {
    exists|k: int| 0 <= k < attrs.len() && #[trigger] attrs[k].name@ == name && attrs[k].value is Flag
}

/// The string given to the annotation `name`: none where it is absent, the
/// annotation's name as the error where its value is not a string literal.
pub open spec fn string_value(attrs: Seq<Attr>, name: Seq<char>) -> Result<
    Option<Seq<char>>,
    AttrFault,
> {
    match last_value(attrs, name) {
        None => Ok(None),
        Some(AttrValue::Str(s)) => Ok(Some(s@)),
        Some(_) => Err(AttrFault::NotAString(name)),
    }
}

pub open spec fn string_result(r: Result<Option<String>, AttrError>) -> Result<
    Option<Seq<char>>,
    AttrFault,
> {
    match r {
        Ok(Some(s)) => Ok(Some(s@)),
        Ok(None) => Ok(None),
        Err(e) => Err(attr_fault(e)),
    }
}

pub open spec fn name_result(r: Result<String, AttrError>) -> Result<Seq<char>, AttrFault> {
    match r {
        Ok(s) => Ok(s@),
        Err(e) => Err(attr_fault(e)),
    }
}

/// The wire name of an item declared as `ident`: its `rename`, if given.
pub open spec fn wire_name(ident: Seq<char>, attrs: Seq<Attr>) -> Result<Seq<char>, AttrFault> {
    match string_value(attrs, "rename"@) {
        Ok(Some(n)) => Ok(n),
        Ok(None) => Ok(ident),
        Err(e) => Err(e),
    }
}

/// The model of an entry as plain values: its name, a code for the kind of its
/// value (0 a bare flag, 1 a string literal, 2 any other value, 3 a nested
/// list), and the text of its string literal.
pub open spec fn entry_model(a: Attr) -> (Seq<char>, nat, Seq<char>) {
    match a.value {
        AttrValue::Flag => (a.name@, 0, Seq::empty()),
        AttrValue::Str(s) => (a.name@, 1, s@),
        AttrValue::Other => (a.name@, 2, Seq::empty()),
        AttrValue::List => (a.name@, 3, Seq::empty()),
    }
}

pub open spec fn entries_model(v: Seq<Attr>) -> Seq<(Seq<char>, nat, Seq<char>)> {
    v.map_values(|a: Attr| entry_model(a))
}

/// The entries that syn reads from the argument tokens of one annotation, or
/// none where the tokens are not a comma-separated list of entries.
pub uninterp spec fn parsed_entries(tokens: Seq<char>) -> Option<Seq<(Seq<char>, nat, Seq<char>)>>;

/// Relies on syn's `Punctuated::<Meta, Comma>::parse_terminated`, run through
/// `Parser::parse_str`, to split the argument tokens of one annotation into
/// entries; an entry whose path is not a single identifier gets an empty name.
#[verifier::external_body]
fn parse_entries(tokens: &str) -> (r: Option<Vec<Attr>>)
    ensures
        match r {
            Some(v) => parsed_entries(tokens@) == Some(entries_model(v@)),
            None => parsed_entries(tokens@) is None,
        },
{
    let metas = Punctuated::<Meta, Comma>::parse_terminated.parse_str(tokens).ok()?;
    let name = |p: &syn::Path| p.get_ident().map(|i| i.to_string()).unwrap_or_default();
    Some(metas.iter().map(|m| match m {
        Meta::Path(p) => Attr { name: name(p), value: AttrValue::Flag },
        Meta::List(l) => Attr { name: name(&l.path), value: AttrValue::List },
        Meta::NameValue(nv) => Attr { name: name(&nv.path), value: match &nv.value {
            Expr::Lit(ExprLit { lit: Lit::Str(s), .. }) => AttrValue::Str(s.value()),
            _ => AttrValue::Other,
        } },
    }).collect())
}

/// The entries of every `serde` annotation among `anns`, each given as its path
/// and its argument tokens, in order; an annotation whose tokens do not parse
/// adds nothing.
pub open spec fn serde_entries(anns: Seq<(String, String)>) -> Seq<(Seq<char>, nat, Seq<char>)>
    decreases anns.len(),
{
    if anns.len() == 0 {
        Seq::empty()
    } else {
        let a = anns.last();
        serde_entries(anns.drop_last()) + if a.0@ == "serde"@ {
            match parsed_entries(a.1@) {
                Some(es) => es,
                None => Seq::empty(),
            }
        } else {
            Seq::empty()
        }
    }
}

/// Gathers the entries of every `serde` annotation, each given as its path and
/// its argument tokens.
pub fn collect_entries(anns: &Vec<(String, String)>) -> (r: Vec<Attr>)
    ensures
        entries_model(r@) == serde_entries(anns@),
{
    let serde = "serde".to_owned();
    let mut out: Vec<Attr> = Vec::new();
    let n = anns.len();
    let mut k: usize = 0;
    assert(entries_model(out@) =~= serde_entries(anns@.subrange(0, 0)));
    while k < n
        invariant
            n == anns@.len(),
            k <= n,
            serde@ == "serde"@,
            entries_model(out@) == serde_entries(anns@.subrange(0, k as int)),
        decreases n - k,
    {
        assert(anns@.subrange(0, k + 1).drop_last() =~= anns@.subrange(0, k as int));
        if anns[k].0 == serde {
            if let Some(mut es) = parse_entries(anns[k].1.as_str()) {
                proof {
                    assert(entries_model(out@ + es@) =~= entries_model(out@) + entries_model(es@));
                }
                out.append(&mut es);
            } else {
                assert(entries_model(out@) =~= entries_model(out@) + Seq::empty());
            }
        } else {
            assert(entries_model(out@) =~= entries_model(out@) + Seq::empty());
        }
        k += 1;
    }
    assert(anns@.subrange(0, n as int) =~= anns@);
    out
}

/// Gets the value of the last entry named `name` that has one.
pub fn get_attr_value<'a>(attrs: &'a Vec<Attr>, name: &String) -> (r: Option<&'a AttrValue>)
    ensures
        match r {
            Some(x) => last_value(attrs@, name@) == Some(*x),
            None => last_value(attrs@, name@) is None,
        },
{
    let mut k: usize = attrs.len();
    assert(attrs@.subrange(0, k as int) =~= attrs@);
    while k > 0
        invariant
            k <= attrs@.len(),
            last_value(attrs@.subrange(0, k as int), name@) == last_value(attrs@, name@),
        decreases k,
    {
        let ghost pre = attrs@.subrange(0, k as int);
        assert(pre.drop_last() =~= attrs@.subrange(0, k - 1));
        let a = &attrs[k - 1];
        let has_value = match a.value {
            AttrValue::Str(_) | AttrValue::Other => true,
            _ => false,
        };
        if a.name == *name && has_value {
            return Some(&a.value);
        }
        k -= 1;
    }
    None
}

/// Checks whether the bare flag `name` is present.
pub fn has_flag(attrs: &Vec<Attr>, name: &String) -> (r: bool)
    ensures
        r == flag_set(attrs@, name@),
{
    let n = attrs.len();
    let mut k: usize = 0;
    while k < n
        invariant
            n == attrs@.len(),
            k <= n,
            forall|o: int| 0 <= o < k ==> !(#[trigger] attrs@[o].name@ == name@ && attrs@[o].value is Flag),
        decreases n - k,
    {
        let is_flag = match attrs[k].value {
            AttrValue::Flag => true,
            _ => false,
        };
        if attrs[k].name == *name && is_flag {
            return true;
        }
        k += 1;
    }
    false
}

/// Gets the string literal given to the annotation `name`.
fn string_attr(attrs: &Vec<Attr>, name: &str) -> (r: Result<Option<String>, AttrError>)
    ensures
        string_result(r) == string_value(attrs@, name@),
{
    let key = name.to_owned();
    match get_attr_value(attrs, &key) {
        None => Ok(None),
        Some(AttrValue::Str(s)) => Ok(Some(s.clone())),
        Some(_) => Err(AttrError::NotAString(key)),
    }
}

fn name_or_rename(ident: &String, attrs: &Vec<Attr>) -> (r: Result<String, AttrError>)
    ensures
        name_result(r) == wire_name(ident@, attrs@),
{
    match string_attr(attrs, "rename") {
        Ok(Some(n)) => Ok(n),
        Ok(None) => Ok(ident.clone()),
        Err(e) => Err(e),
    }
}

/// The wire name of a field declared as `ident`.
pub fn get_field_name(ident: &String, attrs: &Vec<Attr>) -> (r: Result<String, AttrError>)
    ensures
        name_result(r) == wire_name(ident@, attrs@),
{
    name_or_rename(ident, attrs)
}

/// The wire name of a variant declared as `ident`.
pub fn get_variant_name(ident: &String, attrs: &Vec<Attr>) -> (r: Result<String, AttrError>)
    ensures
        name_result(r) == wire_name(ident@, attrs@),
{
    name_or_rename(ident, attrs)
}

/// The predicate given by `skip_serializing_if`.
pub fn get_skip_field_serializing_if(attrs: &Vec<Attr>) -> (r: Result<Option<String>, AttrError>)
    ensures
        string_result(r) == string_value(attrs@, "skip_serializing_if"@),
{
    string_attr(attrs, "skip_serializing_if")
}

/// The encoder given by `serialize_with`.
pub fn get_field_serializer(attrs: &Vec<Attr>) -> (r: Result<Option<String>, AttrError>)
    ensures
        string_result(r) == string_value(attrs@, "serialize_with"@),
{
    string_attr(attrs, "serialize_with")
}

/// The decoder given by `deserialize_with`.
pub fn get_field_deserializer(attrs: &Vec<Attr>) -> (r: Result<Option<String>, AttrError>)
    ensures
        string_result(r) == string_value(attrs@, "deserialize_with"@),
{
    string_attr(attrs, "deserialize_with")
}

/// The updater given by `update_with`.
pub fn get_field_updater(attrs: &Vec<Attr>) -> (r: Result<Option<String>, AttrError>)
    ensures
        string_result(r) == string_value(attrs@, "update_with"@),
{
    string_attr(attrs, "update_with")
}

/// The tag key given by `tag`.
pub fn get_enum_tag(attrs: &Vec<Attr>) -> (r: Result<Option<String>, AttrError>)
    ensures
        string_result(r) == string_value(attrs@, "tag"@),
{
    string_attr(attrs, "tag")
}

/// The content key given by `content`.
pub fn get_enum_content(attrs: &Vec<Attr>) -> (r: Result<Option<String>, AttrError>)
    ensures
        string_result(r) == string_value(attrs@, "content"@),
{
    string_attr(attrs, "content")
}

/// The type given by `from`.
pub fn get_from(attrs: &Vec<Attr>) -> (r: Result<Option<String>, AttrError>)
    ensures
        string_result(r) == string_value(attrs@, "from"@),
{
    string_attr(attrs, "from")
}

/// The tagging that an enum's annotations select: a tag and a content key make
/// it adjacent, a tag alone internal, and neither external; a content key
/// without a tag key is refused.
pub open spec fn tagging_of(attrs: Seq<Attr>) -> Result<Option<(Seq<char>, Option<Seq<char>>)>, AttrFault> {
    match string_value(attrs, "tag"@) {
        Err(e) => Err(e),
        Ok(None) => match string_value(attrs, "content"@) {
            Err(e) => Err(e),
            Ok(Some(_)) => Err(AttrFault::ContentWithoutTag),
            Ok(None) => Ok(None),
        },
        Ok(Some(t)) => match string_value(attrs, "content"@) {
            Err(e) => Err(e),
            Ok(c) => Ok(Some((t, c))),
        },
    }
}

pub open spec fn tagging_result(r: Result<Tagging, AttrError>) -> Result<
    Option<(Seq<char>, Option<Seq<char>>)>,
    AttrFault,
> {
    match r {
        Ok(Tagging::External) => Ok(None),
        Ok(Tagging::Internal(t)) => Ok(Some((t@, None))),
        Ok(Tagging::Adjacent(t, c)) => Ok(Some((t@, Some(c@)))),
        Err(e) => Err(attr_fault(e)),
    }
}

/// Resolves an enum's tagging from its annotations.
pub fn resolve_tagging(attrs: &Vec<Attr>) -> (r: Result<Tagging, AttrError>)
    ensures
        tagging_result(r) == tagging_of(attrs@),
{
    match get_enum_tag(attrs) {
        Err(e) => Err(e),
        Ok(None) => match get_enum_content(attrs) {
            Err(e) => Err(e),
            Ok(Some(_)) => Err(AttrError::ContentWithoutTag),
            Ok(None) => Ok(Tagging::External),
        },
        Ok(Some(t)) => match get_enum_content(attrs) {
            Err(e) => Err(e),
            Ok(None) => Ok(Tagging::Internal(t)),
            Ok(Some(c)) => Ok(Tagging::Adjacent(t, c)),
        },
    }
}

/// Resolves a named field declared as `ident` with type `ty` from its
/// annotations; `decoder` is what its `deserialize_with` names, if anything,
/// and `default_value` the default value of its type, where that type is one
/// of the schema's.
pub fn resolve_field(
    ident: &String,
    attrs: &Vec<Attr>,
    ty: TypeRef,
    decoder: Option<TypeRef>,
    default_value: Option<Decoded>,
) -> (r: Result<FieldSpec, AttrError>)
    ensures
        match r {
            Ok(f) => wire_name(ident@, attrs@) == Ok::<Seq<char>, AttrFault>(f.wire_name@)
                && f.ty == ty && f.decoder == decoder && f.default_value == default_value
                && f.skip == (flag_set(attrs@, "skip"@) || flag_set(attrs@, "skip_deserializing"@))
                && f.default_on_missing == flag_set(attrs@, "default"@)
                && f.flatten == flag_set(attrs@, "flatten"@),
            Err(e) => wire_name(ident@, attrs@) == Err::<Seq<char>, AttrFault>(attr_fault(e)),
        },
{
    let wire_name = match get_field_name(ident, attrs) {
        Ok(n) => n,
        Err(e) => {
            return Err(e);
        },
    };
    let skip = has_flag(attrs, &"skip".to_owned()) || has_flag(attrs, &"skip_deserializing".to_owned());
    let default_on_missing = has_flag(attrs, &"default".to_owned());
    let flatten = has_flag(attrs, &"flatten".to_owned());
    Ok(FieldSpec { wire_name, ty, decoder, skip, default_on_missing, flatten, default_value })
}

/// Resolves a variant declared as `ident`, with the given payload, from its
/// annotations.
pub fn resolve_variant(ident: &String, attrs: &Vec<Attr>, payload: Payload) -> (r: Result<
    VariantSpec,
    AttrError,
>)
    ensures
        match r {
            Ok(x) => wire_name(ident@, attrs@) == Ok::<Seq<char>, AttrFault>(x.wire_name@)
                && x.payload == payload,
            Err(e) => wire_name(ident@, attrs@) == Err::<Seq<char>, AttrFault>(attr_fault(e)),
        },
{
    match get_variant_name(ident, attrs) {
        Ok(wire_name) => Ok(VariantSpec { wire_name, payload }),
        Err(e) => Err(e),
    }
}

} // verus!
