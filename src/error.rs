//! Failures of card lookup, spread selection and composition.
use vstd::prelude::*;

use crate::info::{decimal, decimal_string};

verus! {

/// Why a reading could not be produced.
#[derive(Debug)]
pub enum SpreadError {
    /// No card matches the query.
    NotFound(String),
    /// The spread size is outside `1..=10`.
    InvalidCount,
    /// The spread asks for more cards than the table holds.
    NotEnoughCards { need: usize, have: usize },
    /// Composition was asked for no cards.
    NoCards,
    /// Composition was asked for more cards than a spread holds.
    TooManyCards,
    /// An image could not be read or decoded.
    ImageLoad { path: String, reason: String },
    /// The canvas would not fit in memory or in 32-bit dimensions.
    CanvasTooLarge,
    /// The composite could not be encoded.
    Encode(String),
    /// The composite could not be written to `path`.
    Persist { path: String, reason: String },
}

/// The text shown to a user for each failure.
pub open spec fn message_of(e: SpreadError) -> Seq<char> {
    match e {
        SpreadError::NotFound(q) => "Card not found: '"@ + q@
            + "'\nTry: fool, magus, six of swords, science, etc."@,
        SpreadError::InvalidCount => "Card count must be between 1 and 10"@,
        SpreadError::NotEnoughCards { need, have } => "Not enough tarot cards in database. Need "@
            + decimal(need as nat) + ", have "@ + decimal(have as nat),
        SpreadError::NoCards => "No cards provided"@,
        SpreadError::TooManyCards => "Maximum 10 cards supported"@,
        SpreadError::ImageLoad { path, reason } => "Failed to load image "@ + path@ + ": "@
            + reason@,
        SpreadError::CanvasTooLarge => "Composite image too large"@,
        SpreadError::Encode(reason) => "Failed to encode PNG: "@ + reason@,
        SpreadError::Persist { reason, .. } => "Failed to write temp file: "@ + reason@,
    }
}

impl SpreadError {
    /// The text shown to a user.
    pub fn message(&self) -> (r: String)
        ensures
            r@ == message_of(*self),
    {
        match self {
            SpreadError::NotFound(q) => {
                let mut s = String::from_str("Card not found: '");
                s.append(q.as_str());
                s.append("'\nTry: fool, magus, six of swords, science, etc.");
                s
            },
            SpreadError::InvalidCount => String::from_str("Card count must be between 1 and 10"),
            SpreadError::NotEnoughCards { need, have } => {
                let mut s = String::from_str("Not enough tarot cards in database. Need ");
                let a = decimal_string(*need);
                s.append(a.as_str());
                s.append(", have ");
                let b = decimal_string(*have);
                s.append(b.as_str());
                s
            },
            SpreadError::NoCards => String::from_str("No cards provided"),
            SpreadError::TooManyCards => String::from_str("Maximum 10 cards supported"),
            SpreadError::ImageLoad { path, reason } => {
                let mut s = String::from_str("Failed to load image ");
                s.append(path.as_str());
                s.append(": ");
                s.append(reason.as_str());
                s
            },
            SpreadError::CanvasTooLarge => String::from_str("Composite image too large"),
            SpreadError::Encode(reason) => {
                let mut s = String::from_str("Failed to encode PNG: ");
                s.append(reason.as_str());
                s
            },
            SpreadError::Persist { reason, .. } => {
                let mut s = String::from_str("Failed to write temp file: ");
                s.append(reason.as_str());
                s
            },
        }
    }
}

} // verus!
