//! The display options recognized by the engine.

use vstd::prelude::*;

verus! {

/// The set of recognized display options. `number_nonblank` takes precedence
/// over `number_all` when both are set.
#[derive(Clone, Copy, PartialEq, Eq, Structural, Debug)]
pub struct Config {
    /// Number every output line.
    pub number_all: bool,
    /// Number only the non-blank output lines.
    pub number_nonblank: bool,
    /// Collapse runs of adjacent blank lines into a single blank line.
    pub squeeze_blank: bool,
    /// Display control and high-bit bytes visibly.
    pub show_nonprinting: bool,
    /// Display tab bytes as `^I` (also enables visible display).
    pub show_tabs: bool,
}

impl Config {
    /// True when bytes are displayed through the escaping classifier rather
    /// than passed through raw.
    pub open spec fn escaping(self) -> bool {
        self.show_nonprinting || self.show_tabs
    }

    /// True when every line, blank or not, receives a number:
    /// `number_all` is set and `number_nonblank` does not take precedence.
    pub open spec fn numbers_all_lines(self) -> bool {
        self.number_all && !self.number_nonblank
    }

    /// True when no option is set, so output is a raw copy of the input.
    pub open spec fn is_plain(self) -> bool {
        !self.number_all && !self.number_nonblank && !self.squeeze_blank
            && !self.show_nonprinting && !self.show_tabs
    }
}

} // verus!
