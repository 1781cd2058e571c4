//! The filter capability: three predicates over the database id, the
//! value-type tag and the key, consulted once per key record.
//!
//! Contracts speak of a filter through its ghost triple [`FilterSpec`]; the
//! ghost decoder takes that triple, so everything proved of a run holds for
//! every implementation of [`Filter`].
use vstd::prelude::*;

use crate::types::spec_from_encoding;
use crate::types::Type;

verus! {

/// The ghost form of a filter: three predicates.
pub struct FilterSpec {
    pub db: spec_fn(u64) -> bool,
    pub typ: spec_fn(u8) -> bool,
    pub key: spec_fn(Seq<u8>) -> bool,
}

/// The filter that admits everything.
pub open spec fn all_pass() -> FilterSpec {
    FilterSpec { db: |d: u64| true, typ: |t: u8| true, key: |k: Seq<u8>| true }
}

/// Whether a key record with this database, tag and key is admitted.
pub open spec fn admits(f: FilterSpec, db: u64, tag: u8, key: Seq<u8>) -> bool {
    (f.db)(db) && (f.typ)(tag) && (f.key)(key)
}

/// A filter: three pure predicates, each answering exactly its ghost
/// counterpart.
pub trait Filter {
    /// The ghost triple this filter computes.
    spec fn fspec(&self) -> FilterSpec;

    /// Does the filter admit keys of this database?
    fn matches_db(&self, db: u64) -> (r: bool)
        ensures
            r == (self.fspec().db)(db),
    ;

    /// Does the filter admit values with this type tag?
    fn matches_type(&self, tag: u8) -> (r: bool)
        ensures
            r == (self.fspec().typ)(tag),
    ;

    /// Does the filter admit this key?
    fn matches_key(&self, key: &[u8]) -> (r: bool)
        ensures
            r == (self.fspec().key)(key@),
    ;
}

/// What the key matcher answers: whether the pattern, compiled with the
/// default configuration, matches the text.  Named, not written out: the
/// trusted wrappers below tie it to the outside matcher.
pub uninterp spec fn regex_match_of(pattern: Seq<char>, text: Seq<u8>) -> bool;

/// The pattern a compiled matcher stands for.
pub uninterp spec fn regex_pattern_of(re: regex::bytes::Regex) -> Seq<char>;

/// Whether a pattern compiles under the default configuration: a function
/// of the pattern alone.
pub uninterp spec fn regex_compiles(pattern: Seq<char>) -> bool;

#[verifier::external_type_specification]
#[verifier::external_body]
pub struct ExRegex(regex::bytes::Regex);

/// Relies on regex::bytes::Regex::new with its default configuration:
/// whether a pattern compiles is a function of the pattern alone, and on
/// success the matcher stands for exactly the given pattern.
#[verifier::external_body]
fn regex_new(pattern: &str) -> (r: Option<regex::bytes::Regex>)
    ensures
        r is Some <==> regex_compiles(pattern@),
        r matches Some(re) ==> regex_pattern_of(re) == pattern@,
{
    match regex::bytes::Regex::new(pattern) {
        Ok(re) => Some(re),
        Err(_) => None,
    }
}

/// Relies on regex::bytes::Regex::is_match: whether a matcher accepts a
/// text is a function of the pattern it stands for and the text alone.
#[verifier::external_body]
fn regex_is_match(re: &regex::bytes::Regex, text: &[u8]) -> (r: bool)
    ensures
        r == regex_match_of(regex_pattern_of(*re), text@),
{
    re.is_match(text)
}

/// Does this sequence hold this value?
fn vec_contains_u64(v: &Vec<u64>, x: u64) -> (r: bool)
    ensures
        r == v@.contains(x),
{
    let mut i: usize = 0;
    while i < v.len()
        invariant
            i <= v@.len(),
            forall|j: int| 0 <= j < i ==> v@[j] != x,
        decreases v@.len() - i,
    {
        if v[i] == x {
            return true;
        }
        i = i + 1;
    }
    false
}

/// Does this sequence hold this kind?
fn vec_contains_type(v: &Vec<Type>, x: Type) -> (r: bool)
    ensures
        r == v@.contains(x),
{
    let mut i: usize = 0;
    while i < v.len()
        invariant
            i <= v@.len(),
            forall|j: int| 0 <= j < i ==> v@[j] != x,
        decreases v@.len() - i,
    {
        if v[i] == x {
            return true;
        }
        i = i + 1;
    }
    false
}

/// The canonical kind of a value-type tag, executable form.
fn type_of_tag(tag: u8) -> (r: Option<Type>)
    ensures
        r == spec_from_encoding(tag),
{
    if tag == crate::constants::TYPE_STRING {
        Some(Type::String)
    } else if tag == crate::constants::TYPE_HASH || tag == crate::constants::TYPE_HASH_ZIPMAP || tag
        == crate::constants::TYPE_HASH_ZIPLIST {
        Some(Type::Hash)
    } else if tag == crate::constants::TYPE_LIST || tag == crate::constants::TYPE_LIST_ZIPLIST
        || tag == crate::constants::TYPE_LIST_QUICKLIST {
        Some(Type::List)
    } else if tag == crate::constants::TYPE_SET || tag == crate::constants::TYPE_SET_INTSET {
        Some(Type::SetKind)
    } else if tag == crate::constants::TYPE_ZSET || tag == crate::constants::TYPE_ZSET_ZIPLIST
        || tag == crate::constants::TYPE_ZSET2 {
        Some(Type::SortedSet)
    } else {
        None
    }
}

/// The configurable filter: a database whitelist, a kind whitelist and an
/// optional key pattern.  An empty whitelist admits everything; a key
/// without a canonical kind fails a non-empty kind whitelist.
pub struct Simple {
    pub databases: Vec<u64>,
    pub types: Vec<Type>,
    pub keys: Option<regex::bytes::Regex>,
}

impl Simple {
    /// The filter that admits everything.
    pub fn new() -> (r: Simple)
        ensures
            r.databases@ == Seq::<u64>::empty(),
            r.types@ == Seq::<Type>::empty(),
            r.keys is None,
    {
        Simple { databases: Vec::new(), types: Vec::new(), keys: None }
    }

    /// Admit this database id.
    pub fn add_database(&mut self, db: u64)
        ensures
            final(self).databases@ == old(self).databases@.push(db),
            final(self).types == old(self).types,
            final(self).keys == old(self).keys,
    {
        self.databases.push(db);
    }

    /// Admit this value kind.
    pub fn add_type(&mut self, typ: Type)
        ensures
            final(self).types@ == old(self).types@.push(typ),
            final(self).databases == old(self).databases,
            final(self).keys == old(self).keys,
    {
        self.types.push(typ);
    }

    /// Admit only keys matching this pattern; reports whether the pattern
    /// compiled, which depends on the pattern alone.
    pub fn add_keys(&mut self, pattern: &str) -> (ok: bool)
        ensures
            ok == regex_compiles(pattern@),
            final(self).databases == old(self).databases,
            final(self).types == old(self).types,
            ok ==> (final(self).keys matches Some(re) && regex_pattern_of(re) == pattern@),
            !ok ==> final(self).keys == old(self).keys,
    {
        match regex_new(pattern) {
            Some(re) => {
                self.keys = Some(re);
                true
            },
            None => false,
        }
    }
}

impl Filter for Simple {
    open spec fn fspec(&self) -> FilterSpec {
        FilterSpec {
            db: |d: u64| self.databases@.len() == 0 || self.databases@.contains(d),
            typ: |t: u8|
                self.types@.len() == 0 || (spec_from_encoding(t) matches Some(ty)
                    && self.types@.contains(ty)),
            key: |k: Seq<u8>|
                match self.keys {
                    Some(re) => regex_match_of(regex_pattern_of(re), k),
                    None => true,
                },
        }
    }

    fn matches_db(&self, db: u64) -> (r: bool) {
        if self.databases.len() == 0 {
            true
        } else {
            vec_contains_u64(&self.databases, db)
        }
    }

    fn matches_type(&self, tag: u8) -> (r: bool) {
        if self.types.len() == 0 {
            true
        } else {
            match type_of_tag(tag) {
                Some(t) => vec_contains_type(&self.types, t),
                None => false,
            }
        }
    }

    fn matches_key(&self, key: &[u8]) -> (r: bool) {
        match &self.keys {
            Some(re) => regex_is_match(re, key),
            None => true,
        }
    }
}

} // verus!
