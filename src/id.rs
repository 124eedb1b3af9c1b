//! Annotated identifiers, used as the keys of struct values.
use vstd::prelude::*;

use crate::hashing::{hash_opt_text, hash_text, mix, mix_exec, opt_text_hash, text_hash};

verus! {

/// An identifier with an optional free-text annotation.
#[derive(Debug, Clone, Hash)]
pub struct Id {
    ident: String,
    metadata: Option<String>,
}

/// The characters of an optional text.
pub open spec fn opt_str_view(o: Option<String>) -> Option<Seq<char>> {
    match o {
        Some(s) => Some(s@),
        None => None,
    }
}

/// Compares two optional texts by their characters.
pub fn opt_str_eq(a: &Option<String>, b: &Option<String>) -> (r: bool)
    ensures
        r == (opt_str_view(*a) == opt_str_view(*b)),
{
    match (a, b) {
        (Some(x), Some(y)) => *x == *y,
        (None, None) => true,
        _ => false,
    }
}

impl View for Id {
    type V = (Seq<char>, Option<Seq<char>>);

    closed spec fn view(&self) -> (Seq<char>, Option<Seq<char>>) {
        (self.ident@, opt_str_view(self.metadata))
    }
}

impl Id {
    /// An identifier without annotation.
    pub fn new(ident: &str) -> (r: Id)
        ensures
            r@ == (ident@, None::<Seq<char>>),
    {
        Id { ident: ident.to_string(), metadata: None }
    }

    /// An identifier with the annotation `metadata`.
    pub fn with_metadata(ident: &str, metadata: &str) -> (r: Id)
        ensures
            r@ == (ident@, Some(metadata@)),
    {
        let ident = ident.to_string();
        let metadata = metadata.to_string();
        Id { ident, metadata: Some(metadata) }
    }

    pub fn ident(&self) -> (r: &str)
        ensures
            r@ == self@.0,
    {
        self.ident.as_str()
    }

    pub fn metadata(&self) -> (r: Option<&String>)
        ensures
            match r {
                Some(s) => self@.1 == Some(s@),
                None => self@.1 is None,
            },
    {
        self.metadata.as_ref()
    }

    /// Two identifiers are equal when text and annotation both agree.
    pub fn equals(&self, other: &Id) -> (r: bool)
        ensures
            r == (self@ == other@),
    {
        self.ident == other.ident && opt_str_eq(&self.metadata, &other.metadata)
    }
}

/// The hash of an identifier, a function of its text and annotation.
pub open spec fn id_hash(v: (Seq<char>, Option<Seq<char>>)) -> u64 {
    mix(text_hash(v.0), opt_text_hash(v.1))
}

impl Id {
    /// A hash that equal identifiers share.
    pub fn hash_code(&self) -> (r: u64)
        ensures
            r == id_hash(self@),
    {
        mix_exec(hash_text(self.ident.as_str()), hash_opt_text(&self.metadata))
    }
}

impl PartialEq for Id {
    fn eq(&self, other: &Id) -> (r: bool) {
        self.equals(other)
    }
}

impl Eq for Id {}

impl vstd::std_specs::cmp::PartialEqSpecImpl for Id {
    open spec fn obeys_eq_spec() -> bool {
        true
    }

    open spec fn eq_spec(&self, other: &Id) -> bool {
        self@ == other@
    }
}

} // verus!
