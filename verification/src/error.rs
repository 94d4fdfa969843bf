//! The failures the solver can report.

use vstd::prelude::*;

verus! {

/// Why solving failed.
#[derive(Clone, Copy, Debug, PartialEq, Eq, Structural)]
pub enum CaptchaError {
    /// A span's crop region holds no pixel with non-zero alpha, so no
    /// silhouette can be extracted from it.
    EmptySilhouette,
    /// Segmentation is degenerate: fewer than two delimiter columns were
    /// found, or two consecutive delimiters stand too close for an icon
    /// span (and its center arithmetic) to fit between them.
    MalformedCaptcha,
}

impl CaptchaError {
    /// A short description, for callers that print diagnostics.
    pub fn describe(&self) -> (r: &'static str)
        ensures
            *self is EmptySilhouette ==> r@ == "a span contains no opaque pixel"@,
            *self is MalformedCaptcha ==> r@ == "the image cannot be segmented into icon spans"@,
    {
        match self {
            CaptchaError::EmptySilhouette => "a span contains no opaque pixel",
            CaptchaError::MalformedCaptcha => "the image cannot be segmented into icon spans",
        }
    }
}

} // verus!
