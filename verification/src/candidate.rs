//! What extraction finds: keys, and for each key either its value or the
//! text of a number that is still to be read as a float.

use vstd::prelude::*;

use crate::json::{Json, JsonValue};

verus! {

/// The value found for a key, or the number text from which it is read.
#[derive(Debug)]
pub enum PendingValue {
    /// The value.
    Ready(JsonValue),
    /// A numeric literal that is no `i64`, read as `str::parse::<f64>` reads
    /// it; only a finite result is a value.
    NumberText(String),
}

/// The model of a [`PendingValue`].
pub enum PendingModel {
    Ready(Json),
    NumberText(Seq<char>),
}

impl View for PendingValue {
    type V = PendingModel;

    open spec fn view(&self) -> PendingModel {
        match self {
            PendingValue::Ready(v) => PendingModel::Ready(v@),
            PendingValue::NumberText(s) => PendingModel::NumberText(s@),
        }
    }
}

/// A key of the hydration state and what its value is read from.
#[derive(Debug)]
pub struct Candidate {
    pub key: String,
    pub value: PendingValue,
}

/// The model of a [`Candidate`].
pub struct CandidateModel {
    pub key: Seq<char>,
    pub value: PendingModel,
}

impl View for Candidate {
    type V = CandidateModel;

    open spec fn view(&self) -> CandidateModel {
        CandidateModel { key: self.key@, value: self.value@ }
    }
}

/// The models of a sequence of candidates.
pub open spec fn candidate_models(s: Seq<Candidate>) -> Seq<CandidateModel> {
    s.map_values(|c: Candidate| c@)
}

} // verus!
