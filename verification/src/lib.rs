//! Extraction of declarative package metadata from formula scripts.
//!
//! A formula script declares one package as a class whose body calls
//! declarative methods (`desc`, `homepage`, `url`, `sha256`) with literal
//! arguments, followed by arbitrary installation logic. This crate derives the
//! canonical class identifier from the file stem, keeps only the declarative
//! lines, evaluates those lines in a restricted capture environment that
//! records literal values and runs nothing else, and assembles the captured
//! values into a typed record.

pub mod capture;
pub mod eval;
pub mod filter;
pub mod ident;
pub mod text;

use vstd::prelude::*;

use crate::capture::{opt_view, CapturedView};
use crate::eval::evaluate_spec;
use crate::filter::filter_spec;
use crate::ident::derived;

verus! {

/// Why a formula script yielded no record.
#[derive(Debug)]
pub enum ParseError {
    /// The script file could not be read. Never produced here: raised by the
    /// caller that performs the read, and carried so that every failure of a
    /// whole extraction shares one type.
    IoError(String),
    /// The file stem cannot produce a nonempty identifier.
    InvalidIdentifier,
    /// A retained declaration line was malformed, with a diagnostic message.
    EvaluationError(String),
}

/// The metadata extracted from one formula script.
#[derive(Debug)]
pub struct Formula {
    /// The file stem, not the derived class identifier; always nonempty.
    pub name: String,
    pub description: Option<String>,
    pub homepage: Option<String>,
    pub url: Option<String>,
    pub sha256: Option<String>,
    /// Reserved: dependency extraction is not performed, so this is empty.
    pub dependencies: Vec<String>,
}

/// Mathematical contents of a [`Formula`].
pub struct FormulaView {
    pub name: Seq<char>,
    pub description: Option<Seq<char>>,
    pub homepage: Option<Seq<char>>,
    pub url: Option<Seq<char>>,
    pub sha256: Option<Seq<char>>,
    pub dependencies: Seq<Seq<char>>,
}

impl View for Formula {
    type V = FormulaView;

    open spec fn view(&self) -> FormulaView {
        FormulaView {
            name: self.name@,
            description: opt_view(self.description),
            homepage: opt_view(self.homepage),
            url: opt_view(self.url),
            sha256: opt_view(self.sha256),
            dependencies: self.dependencies@.map_values(|s: String| s@),
        }
    }
}

/// The record assembled from a stem and the values one evaluation captured.
pub open spec fn record_of(stem: Seq<char>, c: CapturedView) -> FormulaView {
    FormulaView {
        name: stem,
        description: c.description,
        homepage: c.homepage,
        url: c.url,
        sha256: c.sha256,
        dependencies: Seq::empty(),
    }
}

/// How parsing one script must end.
pub enum ParseOutcome {
    /// The stem derives no identifier.
    Invalid,
    /// A retained declaration line was malformed.
    Rejected,
    /// The record extracted from the script.
    Parsed(FormulaView),
}

/// What `parse_formula` returns for a stem and a source text: derive the
/// identifier, keep the declarative lines, evaluate them in a fresh capture
/// record, and assemble the record under the raw stem.
pub open spec fn parse_spec(stem: Seq<char>, source: Seq<char>) -> ParseOutcome {
    if derived(stem).len() == 0 {
        ParseOutcome::Invalid
    } else {
        match evaluate_spec(filter_spec(source)) {
            Some(c) => ParseOutcome::Parsed(record_of(stem, c)),
            None => ParseOutcome::Rejected,
        }
    }
}

/// Extracts the metadata record of the script `source`, named by the file
/// stem `stem`.
pub fn parse_formula(stem: &str, source: &str) -> (r: Result<Formula, ParseError>)
    ensures
        match r {
            Ok(f) => parse_spec(stem@, source@) == ParseOutcome::Parsed(f@) && f@.name.len() > 0,
            Err(e) => match e {
                ParseError::InvalidIdentifier => parse_spec(stem@, source@) is Invalid,
                ParseError::EvaluationError(_) => parse_spec(stem@, source@) is Rejected,
                ParseError::IoError(_) => false,
            },
        },
{
    proof {
        ident::lemma_derived_empty_iff_all_separators(stem@);
    }
    match ident::derive_identifier(stem) {
        Ok(_) => {},
        Err(e) => {
            return Err(e);
        },
    }
    let filtered = filter::filter(source);
    let caps = match eval::evaluate(filtered.as_str()) {
        Ok(c) => c,
        Err(e) => {
            return Err(e);
        },
    };
    let f = Formula {
        name: stem.to_owned(),
        description: caps.get_description(),
        homepage: caps.get_homepage(),
        url: caps.get_url(),
        sha256: caps.get_sha256(),
        dependencies: Vec::new(),
    };
    proof {
        assert(f@.dependencies =~= Seq::<Seq<char>>::empty());
        assert(f@ == record_of(stem@, evaluate_spec(filter_spec(source@)).unwrap()));
    }
    Ok(f)
}

/// Captured values are scoped to one evaluation: even for two scripts whose
/// stems derive the same class identifier, each parse's record is assembled
/// from a fresh capture record filled by its own source alone, so neither
/// result can carry a value declared only by the other.
pub proof fn lemma_parses_isolated(
    stem1: Seq<char>,
    src1: Seq<char>,
    stem2: Seq<char>,
    src2: Seq<char>,
)
    requires
        derived(stem1) == derived(stem2),
        derived(stem1).len() > 0,
    ensures
        evaluate_spec(filter_spec(src1)) matches Some(c1) ==> parse_spec(stem1, src1)
            == ParseOutcome::Parsed(record_of(stem1, c1)),
        evaluate_spec(filter_spec(src2)) matches Some(c2) ==> parse_spec(stem2, src2)
            == ParseOutcome::Parsed(record_of(stem2, c2)),
        src1 == src2 && stem1 == stem2 ==> parse_spec(stem1, src1) == parse_spec(stem2, src2),
{
}

} // verus!
