//! The looks of the spinners; drawing them is the caller's.
use vstd::prelude::*;

verus! {

/// Spinner presets.
#[derive(Debug, Clone, Copy, PartialEq, Eq, Structural)]
pub enum SpinnerType {
    /// Green dots, for polling and watching.
    Watch,
    /// Cyan dots, for connecting.
    Connect,
    /// Blue dots, for indexing and processing.
    Process,
}

/// A spinner's template and tick interval in milliseconds.
pub open spec fn spinner_look(t: SpinnerType) -> (Seq<char>, u64) {
    match t {
        SpinnerType::Watch => ("{spinner:.green} {msg}"@, 100),
        SpinnerType::Connect => ("{spinner:.cyan} {msg}"@, 80),
        SpinnerType::Process => ("{spinner:.blue} {msg}"@, 120),
    }
}

/// The template and tick interval (ms) of a spinner preset.
pub fn spinner_style(spin_type: SpinnerType) -> (r: (&'static str, u64))
    ensures
        r.0@ == spinner_look(spin_type).0,
        r.1 == spinner_look(spin_type).1,
{
    match spin_type {
        SpinnerType::Watch => ("{spinner:.green} {msg}", 100),
        SpinnerType::Connect => ("{spinner:.cyan} {msg}", 80),
        SpinnerType::Process => ("{spinner:.blue} {msg}", 120),
    }
}

} // verus!
