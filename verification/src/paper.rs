use vstd::prelude::*;

verus! {

/// One bibliographic record.
#[derive(Debug)]
pub struct Paper {
    /// Human-readable title; empty when unrecoverable, never an error.
    pub title: String,
    /// The engine's stable cluster identifier for the paper.
    pub id: u64,
    /// The "cited by N" count; present in search and citer contexts, absent
    /// for the target paper of a citation page.
    pub citation_count: Option<u32>,
    /// The papers citing this one; present only on a target-paper-with-citers
    /// result, and each citer has `citers` unset.
    pub citers: Option<Vec<Paper>>,
}

} // verus!
