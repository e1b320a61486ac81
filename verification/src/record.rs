//! The data record bound into a document, and the variable resolver.
//!
//! A record is a flat set of named string fields plus four lists of dated
//! entries; it is loaded once and read-only throughout a render.  A value
//! beginning with the `$` sigil refers to a field by name, over a fixed
//! closed vocabulary; one vocabulary names the scalar fields and a disjoint
//! one names the lists, and resolving a name of the wrong kind, or an
//! unknown name, is an error.  A value without the sigil is literal text
//! and is returned verbatim, never looked up.

use vstd::prelude::*;
use vstd::string::*;

use crate::error::{Error, ErrorV};
use crate::scan::string_eq;

verus! {

/// One dated row of a history list.
#[derive(Debug, PartialEq, Eq)]
pub struct Entry {
    pub year: Option<String>,
    pub month: Option<u8>,
    pub value: String,
}

/// The flat personal-data record a document is rendered against.
#[derive(Debug, PartialEq, Eq)]
pub struct Record {
    pub date: String,
    pub name_kana: String,
    pub name: String,
    pub birth_day: String,
    pub gender: String,
    pub cell_phone: String,
    pub email: String,
    pub photo: String,
    pub address_kana: String,
    pub address: String,
    pub address_zip: String,
    pub tel: String,
    pub fax: String,
    pub address_kana2: String,
    pub address2: String,
    pub address_zip2: String,
    pub tel2: String,
    pub fax2: String,
    pub degree: String,
    pub degree_year: String,
    pub degree_affiliation: String,
    pub thesis_title: String,
    pub education: Vec<Entry>,
    pub experience: Vec<Entry>,
    pub licences: Vec<Entry>,
    pub awards: Vec<Entry>,
    pub teaching: String,
    pub affiliated_society: String,
    pub notices: String,
    pub commuting_time: String,
    pub dependents: String,
    pub spouse: String,
    pub supporting_spouse: String,
    pub hobby: String,
    pub motivation: String,
    pub request: String,
}

/// Whether a value is a `$`-variable reference rather than literal text.
pub open spec fn is_var(value: Seq<char>) -> bool {
    value.len() > 0 && value[0] == '$'
}

/// The scalar field a variable name denotes, if it is in the scalar
/// vocabulary.
pub open spec fn scalar_lookup(name: Seq<char>, r: Record) -> Option<Seq<char>> {
    if name == "$date"@ {
        Some(r.date@)
    } else if name == "$name_kana"@ {
        Some(r.name_kana@)
    } else if name == "$name"@ {
        Some(r.name@)
    } else if name == "$birth_day"@ {
        Some(r.birth_day@)
    } else if name == "$gender"@ {
        Some(r.gender@)
    } else if name == "$cell_phone"@ {
        Some(r.cell_phone@)
    } else if name == "$email"@ {
        Some(r.email@)
    } else if name == "$address_kana"@ {
        Some(r.address_kana@)
    } else if name == "$address"@ {
        Some(r.address@)
    } else if name == "$address_zip"@ {
        Some(r.address_zip@)
    } else if name == "$tel"@ {
        Some(r.tel@)
    } else if name == "$fax"@ {
        Some(r.fax@)
    } else if name == "$address_kana2"@ {
        Some(r.address_kana2@)
    } else if name == "$address2"@ {
        Some(r.address2@)
    } else if name == "$address_zip2"@ {
        Some(r.address_zip2@)
    } else if name == "$tel2"@ {
        Some(r.tel2@)
    } else if name == "$fax2"@ {
        Some(r.fax2@)
    } else if name == "$commuting_time"@ {
        Some(r.commuting_time@)
    } else if name == "$dependents"@ {
        Some(r.dependents@)
    } else if name == "$spouse"@ {
        Some(r.spouse@)
    } else if name == "$supporting_spouse"@ {
        Some(r.supporting_spouse@)
    } else if name == "$hobby"@ {
        Some(r.hobby@)
    } else if name == "$motivation"@ {
        Some(r.motivation@)
    } else if name == "$request"@ {
        Some(r.request@)
    } else if name == "$degree"@ {
        Some(r.degree@)
    } else if name == "$degree_year"@ {
        Some(r.degree_year@)
    } else if name == "$degree_affiliation"@ {
        Some(r.degree_affiliation@)
    } else if name == "$thesis_title"@ {
        Some(r.thesis_title@)
    } else {
        None
    }
}

/// A text value resolved against the record: literal text verbatim, a
/// variable through the scalar vocabulary, an unknown variable nothing.
pub open spec fn resolve_scalar(value: Seq<char>, r: Record) -> Option<Seq<char>> {
    if !is_var(value) {
        Some(value)
    } else {
        scalar_lookup(value, r)
    }
}

/// The list a variable name denotes, if it is in the list vocabulary.
pub open spec fn list_lookup(name: Seq<char>, r: Record) -> Option<Vec<Entry>> {
    if name == "$awards"@ {
        Some(r.awards)
    } else if name == "$education"@ {
        Some(r.education)
    } else if name == "$experience"@ {
        Some(r.experience)
    } else if name == "$licences"@ {
        Some(r.licences)
    } else {
        None
    }
}

/// Resolve a text value: a reference to a scalar field by `$`-name, or the
/// value itself when it does not carry the sigil.
pub fn handle_value<'a>(value: &'a String, inputs: &'a Record) -> (r: Result<&'a String, Error>)
    ensures
        r is Ok <==> resolve_scalar(value@, *inputs) is Some,
        r matches Ok(s) ==> resolve_scalar(value@, *inputs) == Some(s@),
        r matches Err(e) ==> e@ == (ErrorV::UnknownVariable { name: value@ }),
{
    let n = value.as_str().unicode_len();
    if !(n > 0 && value.as_str().get_char(0) == '$') {
        return Ok(value);
    }
    let v = value.as_str();
    if string_eq(v, "$date") {
        Ok(&inputs.date)
    } else if string_eq(v, "$name_kana") {
        Ok(&inputs.name_kana)
    } else if string_eq(v, "$name") {
        Ok(&inputs.name)
    } else if string_eq(v, "$birth_day") {
        Ok(&inputs.birth_day)
    } else if string_eq(v, "$gender") {
        Ok(&inputs.gender)
    } else if string_eq(v, "$cell_phone") {
        Ok(&inputs.cell_phone)
    } else if string_eq(v, "$email") {
        Ok(&inputs.email)
    } else if string_eq(v, "$address_kana") {
        Ok(&inputs.address_kana)
    } else if string_eq(v, "$address") {
        Ok(&inputs.address)
    } else if string_eq(v, "$address_zip") {
        Ok(&inputs.address_zip)
    } else if string_eq(v, "$tel") {
        Ok(&inputs.tel)
    } else if string_eq(v, "$fax") {
        Ok(&inputs.fax)
    } else if string_eq(v, "$address_kana2") {
        Ok(&inputs.address_kana2)
    } else if string_eq(v, "$address2") {
        Ok(&inputs.address2)
    } else if string_eq(v, "$address_zip2") {
        Ok(&inputs.address_zip2)
    } else if string_eq(v, "$tel2") {
        Ok(&inputs.tel2)
    } else if string_eq(v, "$fax2") {
        Ok(&inputs.fax2)
    } else if string_eq(v, "$commuting_time") {
        Ok(&inputs.commuting_time)
    } else if string_eq(v, "$dependents") {
        Ok(&inputs.dependents)
    } else if string_eq(v, "$spouse") {
        Ok(&inputs.spouse)
    } else if string_eq(v, "$supporting_spouse") {
        Ok(&inputs.supporting_spouse)
    } else if string_eq(v, "$hobby") {
        Ok(&inputs.hobby)
    } else if string_eq(v, "$motivation") {
        Ok(&inputs.motivation)
    } else if string_eq(v, "$request") {
        Ok(&inputs.request)
    } else if string_eq(v, "$degree") {
        Ok(&inputs.degree)
    } else if string_eq(v, "$degree_year") {
        Ok(&inputs.degree_year)
    } else if string_eq(v, "$degree_affiliation") {
        Ok(&inputs.degree_affiliation)
    } else if string_eq(v, "$thesis_title") {
        Ok(&inputs.thesis_title)
    } else {
        Err(Error::UnknownVariable { name: value.clone() })
    }
}

/// Resolve a table source: a reference to one of the four history lists by
/// `$`-name.
pub fn handle_history_value<'a>(value: &'a String, inputs: &'a Record) -> (r: Result<
    &'a Vec<Entry>,
    Error,
>)
    ensures
        r is Ok <==> list_lookup(value@, *inputs) is Some,
        r matches Ok(l) ==> list_lookup(value@, *inputs) == Some(*l),
        r matches Err(e) ==> e@ == (ErrorV::UnknownVariable { name: value@ }),
{
    let v = value.as_str();
    if string_eq(v, "$awards") {
        Ok(&inputs.awards)
    } else if string_eq(v, "$education") {
        Ok(&inputs.education)
    } else if string_eq(v, "$experience") {
        Ok(&inputs.experience)
    } else if string_eq(v, "$licences") {
        Ok(&inputs.licences)
    } else {
        Err(Error::UnknownVariable { name: value.clone() })
    }
}

} // verus!
