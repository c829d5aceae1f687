//! The capture environment: a record of the values that declarative calls
//! stored during one evaluation.
//!
//! One record is created fresh per evaluation, owned solely by that call, and
//! read once afterwards; no state is shared between evaluations, so two
//! scripts that declare the same class identifier can never observe each
//! other's values. Each of the four recognized fields has an explicit setter
//! and getter; a field never set reads back as absent.

use vstd::prelude::*;

verus! {

/// One of the four recognized declaration fields.
pub enum FieldKind {
    Description,
    Homepage,
    Url,
    Sha256,
}

/// Mathematical contents of a capture record: for each field, the value last
/// stored, if any.
pub struct CapturedView {
    pub description: Option<Seq<char>>,
    pub homepage: Option<Seq<char>>,
    pub url: Option<Seq<char>>,
    pub sha256: Option<Seq<char>>,
}

/// The contents of a record in which nothing was stored.
pub open spec fn empty_captured() -> CapturedView {
    CapturedView { description: None, homepage: None, url: None, sha256: None }
}

/// The contents after storing `v` into the field `k`, overriding any earlier
/// value of that field and leaving the others unchanged.
pub open spec fn apply_capture(c: CapturedView, k: FieldKind, v: Seq<char>) -> CapturedView {
    match k {
        FieldKind::Description => CapturedView {
            description: Some(v),
            homepage: c.homepage,
            url: c.url,
            sha256: c.sha256,
        },
        FieldKind::Homepage => CapturedView {
            description: c.description,
            homepage: Some(v),
            url: c.url,
            sha256: c.sha256,
        },
        FieldKind::Url => CapturedView {
            description: c.description,
            homepage: c.homepage,
            url: Some(v),
            sha256: c.sha256,
        },
        FieldKind::Sha256 => CapturedView {
            description: c.description,
            homepage: c.homepage,
            url: c.url,
            sha256: Some(v),
        },
    }
}

/// The value a capture record holds for the field `k`.
pub open spec fn field_of(c: CapturedView, k: FieldKind) -> Option<Seq<char>> {
    match k {
        FieldKind::Description => c.description,
        FieldKind::Homepage => c.homepage,
        FieldKind::Url => c.url,
        FieldKind::Sha256 => c.sha256,
    }
}

/// A later declaration of a field overrides an earlier one: storing into the
/// same field twice leaves only the second value, and leaves every other
/// field as it was.
pub proof fn lemma_later_capture_overrides(
    c: CapturedView,
    k: FieldKind,
    v1: Seq<char>,
    v2: Seq<char>,
)
    ensures
        apply_capture(apply_capture(c, k, v1), k, v2) == apply_capture(c, k, v2),
{
}

pub open spec fn opt_view(o: Option<String>) -> Option<Seq<char>> {
    match o {
        Some(s) => Some(s@),
        None => None,
    }
}

/// The values captured during one evaluation, scoped to that evaluation.
pub struct CapturedAttributes {
    description: Option<String>,
    homepage: Option<String>,
    url: Option<String>,
    sha256: Option<String>,
}

impl View for CapturedAttributes {
    type V = CapturedView;

    closed spec fn view(&self) -> CapturedView {
        CapturedView {
            description: opt_view(self.description),
            homepage: opt_view(self.homepage),
            url: opt_view(self.url),
            sha256: opt_view(self.sha256),
        }
    }
}

impl CapturedAttributes {
    /// A fresh record with nothing stored.
    pub fn new() -> (r: CapturedAttributes)
        ensures
            r@ == empty_captured(),
    {
        CapturedAttributes { description: None, homepage: None, url: None, sha256: None }
    }

    /// Stores `v` as the field `k`, overriding any earlier value.
    pub fn set(&mut self, k: FieldKind, v: String)
        ensures
            final(self)@ == apply_capture(old(self)@, k, v@),
    {
        match k {
            FieldKind::Description => self.description = Some(v),
            FieldKind::Homepage => self.homepage = Some(v),
            FieldKind::Url => self.url = Some(v),
            FieldKind::Sha256 => self.sha256 = Some(v),
        }
    }

    /// The stored description, or absent if `desc` was never declared.
    pub fn get_description(&self) -> (r: Option<String>)
        ensures
            opt_view(r) == self@.description,
    {
        match &self.description {
            Some(s) => Some(s.clone()),
            None => None,
        }
    }

    /// The stored homepage, or absent if `homepage` was never declared.
    pub fn get_homepage(&self) -> (r: Option<String>)
        ensures
            opt_view(r) == self@.homepage,
    {
        match &self.homepage {
            Some(s) => Some(s.clone()),
            None => None,
        }
    }

    /// The stored source URL, or absent if `url` was never declared.
    pub fn get_url(&self) -> (r: Option<String>)
        ensures
            opt_view(r) == self@.url,
    {
        match &self.url {
            Some(s) => Some(s.clone()),
            None => None,
        }
    }

    /// The stored checksum, or absent if `sha256` was never declared.
    pub fn get_sha256(&self) -> (r: Option<String>)
        ensures
            opt_view(r) == self@.sha256,
    {
        match &self.sha256 {
            Some(s) => Some(s.clone()),
            None => None,
        }
    }
}

} // verus!
