use vstd::prelude::*;

use crate::decimal::{decimal, u8_to_string};
use crate::error::{join2, HelixiteError};

verus! {

/// How vectors are compared. `Custom` stands for a comparison that the caller supplies;
/// it cannot be persisted.
#[derive(Debug, Clone, Copy, PartialEq, Eq, Structural)]
pub enum SimilarityKind {
    Cosine,
    DotProduct,
    Euclidean,
    Custom,
}

/// The byte under which a comparison is persisted.
pub open spec fn similarity_byte(s: SimilarityKind) -> u8 {
    match s {
        SimilarityKind::Cosine => 0,
        SimilarityKind::DotProduct => 1,
        SimilarityKind::Euclidean => 2,
        SimilarityKind::Custom => 3,
    }
}

/// The comparison a persisted byte stands for; `None` for a custom one and unknown bytes.
pub open spec fn similarity_from_byte(b: u8) -> Option<SimilarityKind> {
    if b == 0 {
        Some(SimilarityKind::Cosine)
    } else if b == 1 {
        Some(SimilarityKind::DotProduct)
    } else if b == 2 {
        Some(SimilarityKind::Euclidean)
    } else {
        None
    }
}

/// The message of a byte that names no persistable comparison.
pub open spec fn similarity_error_message(b: u8) -> Seq<char> {
    if b == 3 {
        "custom similarity cannot be loaded from persisted index"@
    } else {
        "unknown similarity kind: "@ + decimal(b as nat)
    }
}

impl SimilarityKind {
    /// Whether larger scores mean closer vectors: all but Euclidean distance.
    pub fn is_higher_better(&self) -> (r: bool)
        ensures
            r == (*self != SimilarityKind::Euclidean),
    {
        match self {
            SimilarityKind::Cosine => true,
            SimilarityKind::DotProduct => true,
            SimilarityKind::Euclidean => false,
            SimilarityKind::Custom => true,
        }
    }

    /// The byte under which the comparison is persisted.
    pub fn to_byte(self) -> (r: u8)
        ensures
            r == similarity_byte(self),
    {
        match self {
            SimilarityKind::Cosine => 0,
            SimilarityKind::DotProduct => 1,
            SimilarityKind::Euclidean => 2,
            SimilarityKind::Custom => 3,
        }
    }

    /// The comparison a persisted byte stands for; a codec error for a custom one and
    /// for unknown bytes.
    pub fn from_byte(b: u8) -> (r: Result<Self, HelixiteError>)
        ensures
            match similarity_from_byte(b) {
                Some(s) => r == Ok::<SimilarityKind, HelixiteError>(s),
                None => r matches Err(HelixiteError::Codec(msg)) && msg@ == similarity_error_message(b),
            },
    {
        match b {
            0 => Ok(SimilarityKind::Cosine),
            1 => Ok(SimilarityKind::DotProduct),
            2 => Ok(SimilarityKind::Euclidean),
            3 => Err(HelixiteError::Codec("custom similarity cannot be loaded from persisted index".to_owned())),
            other => Err(HelixiteError::Codec(join2("unknown similarity kind: ", u8_to_string(other).as_str()))),
        }
    }
}

/// Persisting a comparison and reading it back gives the comparison, unless it is custom.
pub proof fn law_similarity_roundtrip(s: SimilarityKind)
    requires
        s != SimilarityKind::Custom,
    ensures
        similarity_from_byte(similarity_byte(s)) == Some(s),
{
}

} // verus!
