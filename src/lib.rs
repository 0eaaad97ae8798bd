//! Frequency histograms of text: tokenizers turn lines into weighted keys,
//! a ranked selection picks the heaviest, and a renderer lays them out as
//! rows with proportional bars.

pub mod histogram;
pub mod options;
pub mod pair;
pub mod pattern;
pub mod rank;
pub mod settings;
pub mod tally;
pub mod text;
pub mod tokenizer;
