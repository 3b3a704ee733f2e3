//! The editor's modes and which keys count as numeric prefixes in each.

use vstd::prelude::*;

verus! {

#[derive(Clone, Copy, PartialEq, Eq, Structural, Debug)]
pub enum Mode {
    Normal,
    Insert,
    CommandLine,
    Visual,
}

/// Numeric repeat counts are meaningful only where keys are not literal
/// input: in Normal and Visual mode.
pub open spec fn spec_counts_keys(m: Mode) -> bool {
    m == Mode::Normal || m == Mode::Visual
}

pub fn counts_keys(m: Mode) -> (b: bool)
    ensures
        b == spec_counts_keys(m),
{
    match m {
        Mode::Normal => true,
        Mode::Visual => true,
        _ => false,
    }
}

/// Modes in which an unmapped printable key is literal character input.
pub open spec fn spec_literal_input(m: Mode) -> bool {
    m == Mode::Insert || m == Mode::CommandLine
}

pub fn literal_input(m: Mode) -> (b: bool)
    ensures
        b == spec_literal_input(m),
{
    match m {
        Mode::Insert => true,
        Mode::CommandLine => true,
        _ => false,
    }
}

} // verus!
