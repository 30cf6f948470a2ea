use vstd::prelude::*;

pub mod codec;
pub mod editor;
pub mod service;
pub mod store;

verus! {

/// Errors that the task service reports. All of them are recoverable at the
/// service boundary: the caller reports them instead of crashing.
#[derive(Clone, Copy, Debug, PartialEq, Eq, Structural)]
pub enum TaskError {
    /// The encoded id handed in does not decode to any task id.
    InvalidId,
    /// The id decodes, but no task with it exists.
    NotFound,
    /// An edited buffer was left without a single non-comment line.
    EmptyTitle,
}

/// The name of the tool, used for its data directory and environment
/// variable prefix.
pub fn bin_name() -> (r: &'static str)
    ensures
        r@ == "workingon"@,
{
    "workingon"
}

/// The editor used when the EDITOR environment variable is not set.
pub fn default_editor() -> (r: &'static str)
    ensures
        r@ == "vi"@,
{
    "vi"
}

/// The version line that the command line prints.
pub fn get_version_str() -> (r: String)
    ensures
        r@ == "version 0.1.0"@,
{
    String::from_str("version 0.1.0")
}

} // verus!
