//! What the terminal behind standard output supports.
use vstd::prelude::*;

verus! {

/// Relies on supports_color::on: whether standard output supports color,
/// read afresh from the environment and the terminal on each call. Nothing
/// is stated of the answer, which the environment alone decides.
#[verifier::external_body]
pub(crate) fn stdout_supports_color() -> (r: bool) {
    supports_color::on(supports_color::Stream::Stdout).is_some()
}

} // verus!
