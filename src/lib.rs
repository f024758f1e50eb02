//! A tarot deck engine: a card table loaded from text, lookup of a card by a
//! free-text query, selection of distinct cards for a spread, layout and
//! composition of the spread's card images into one PNG, and the text that
//! accompanies a reading.

pub mod cards;
pub mod command;
pub mod composite;
pub mod csv;
pub mod error;
pub mod history;
pub mod info;
pub mod layout;
pub mod reading;
pub mod sampler;
pub mod text;
