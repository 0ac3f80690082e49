use vstd::prelude::*;

verus! {

/// Why an extraction failed.
#[derive(Debug, Clone, Copy, PartialEq, Eq, Structural)]
pub enum ScrapeError {
    /// A required region or node of the page (results container, footer,
    /// header, citation link) is absent.
    MissingField,
    /// A value (identifier or citation count) could not be located in an
    /// otherwise present text or attribute.
    NoMatch,
    /// A matched digit run does not fit the target integer type.
    NumericConversion,
}

} // verus!
