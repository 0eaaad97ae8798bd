//! The options that shape the report: its size, the tokenizer, the bar
//! glyphs and the colour codes.

use vstd::prelude::*;

verus! {

/// Whether the input already holds counts, and in which order.
#[derive(Debug, Clone, Copy, PartialEq, Eq, Structural)]
pub enum PreTallied {
    NA,
    KeyValue,
    ValueKey,
}

impl Default for PreTallied {
    fn default() -> (r: PreTallied)
        ensures
            r == PreTallied::NA,
    {
        PreTallied::NA
    }
}

/// The finished set of options.
#[derive(Debug)]
pub struct Settings {
    /// Total columns of a row.
    pub width: usize,
    /// Most rows shown.
    pub height: usize,
    /// The bar glyph: one character, or a fill character and a cap.
    pub histogram_char: String,
    /// The bar glyph is a single (possibly multibyte) character.
    pub unicode_mode: bool,
    /// Bars are drawn in eighths of a column with partial block glyphs.
    pub partial_blocks: bool,
    pub graph_values: PreTallied,
    /// Split pattern for tokenizing; empty when lines are keys.
    pub tokenize: String,
    /// Pattern that a line or token must match to be counted.
    pub match_regexp: String,
    pub regular_colour: String,
    pub key_colour: String,
    pub ct_colour: String,
    pub pct_colour: String,
    pub graph_colour: String,
}

impl Settings {
    /// A bar can be drawn: there is a glyph to draw it with.
    pub open spec fn wf(&self) -> bool {
        self.partial_blocks || self.histogram_char@.len() > 0
    }

    pub fn width(&self) -> (r: usize)
        ensures
            r == self.width,
    {
        self.width
    }

    pub fn height(&self) -> (r: usize)
        ensures
            r == self.height,
    {
        self.height
    }

    pub fn graph_values(&self) -> (r: &PreTallied)
        ensures
            *r == self.graph_values,
    {
        &self.graph_values
    }

    pub fn tokenize(&self) -> (r: &str)
        ensures
            r@ == self.tokenize@,
    {
        self.tokenize.as_str()
    }

    pub fn match_regexp(&self) -> (r: &str)
        ensures
            r@ == self.match_regexp@,
    {
        self.match_regexp.as_str()
    }

    /// Width of one bar glyph, in eighths of a column.
    pub fn char_width(&self) -> (r: u64)
        ensures
            r == (if self.partial_blocks { 1u64 } else { 8u64 }),
    {
        if self.partial_blocks {
            1
        } else {
            8
        }
    }

    pub fn histogram_char(&self) -> (r: &str)
        ensures
            r@ == self.histogram_char@,
    {
        self.histogram_char.as_str()
    }

    pub fn unicode_mode(&self) -> (r: bool)
        ensures
            r == self.unicode_mode,
    {
        self.unicode_mode
    }

    pub fn regular_colour(&self) -> (r: &str)
        ensures
            r@ == self.regular_colour@,
    {
        self.regular_colour.as_str()
    }

    pub fn key_colour(&self) -> (r: &str)
        ensures
            r@ == self.key_colour@,
    {
        self.key_colour.as_str()
    }

    pub fn ct_colour(&self) -> (r: &str)
        ensures
            r@ == self.ct_colour@,
    {
        self.ct_colour.as_str()
    }

    pub fn pct_colour(&self) -> (r: &str)
        ensures
            r@ == self.pct_colour@,
    {
        self.pct_colour.as_str()
    }

    pub fn graph_colour(&self) -> (r: &str)
        ensures
            r@ == self.graph_colour@,
    {
        self.graph_colour.as_str()
    }
}

} // verus!
