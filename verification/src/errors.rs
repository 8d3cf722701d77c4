use vstd::prelude::*;

use crate::layer::BackgroundSize;

verus! {

/// Relies on `String::push_str`: std documents that it appends the given
/// string slice onto the end of this `String`.
pub assume_specification[ String::push_str ](s: &mut String, other: &str)
    ensures
        final(s)@ == old(s)@ + other@,
;

/// Why a background layer failed to resolve. One failing layer is dropped
/// from the resolved set; it never stops the other layers from loading.
#[derive(Clone, Copy, PartialEq, Eq, Structural, Debug)]
pub enum BackgroundError {
    /// A sizing mode other than an explicit dimension was asked of a source
    /// that only supports explicit dimensions (gradients and flat colors).
    SpecificationUnsupported,
    /// The gradient specification could not be compiled into an evaluator.
    BuildFailure,
    /// The layer's image file could not be stat'd or read.
    IOFailure,
    /// The layer's image bytes could not be decoded.
    DecodeFailure,
}

impl BackgroundError {
    /// The error's message. The unsupported-sizing message points at the
    /// explicit-dimension alternative that gradients and colors accept.
    pub fn message(&self) -> (r: String)
        ensures
            *self == BackgroundError::SpecificationUnsupported ==> r@
                == "this sizing mode is not implemented for background gradients and colors; use an explicit dimension such as width = '100%'"@,
            *self == BackgroundError::BuildFailure ==> r@
                == "building the gradient failed: a color stop is not a valid CSS color"@,
            *self == BackgroundError::IOFailure ==> r@
                == "the background image file could not be stat'd or read"@,
            *self == BackgroundError::DecodeFailure ==> r@
                == "the background image bytes could not be decoded"@,
    {
        match self {
            BackgroundError::SpecificationUnsupported => {
                let r =
                    "this sizing mode is not implemented for background gradients and colors; use an explicit dimension such as width = '100%'".to_string();
                proof {
                    vstd::string::to_string_from_display_ensures_for_str(
                        "this sizing mode is not implemented for background gradients and colors; use an explicit dimension such as width = '100%'",
                        r,
                    );
                }
                r
            },
            BackgroundError::BuildFailure => {
                let r = "building the gradient failed: a color stop is not a valid CSS color".to_string();
                proof {
                    vstd::string::to_string_from_display_ensures_for_str(
                        "building the gradient failed: a color stop is not a valid CSS color",
                        r,
                    );
                }
                r
            },
            BackgroundError::IOFailure => {
                let r = "the background image file could not be stat'd or read".to_string();
                proof {
                    vstd::string::to_string_from_display_ensures_for_str(
                        "the background image file could not be stat'd or read",
                        r,
                    );
                }
                r
            },
            BackgroundError::DecodeFailure => {
                let r = "the background image bytes could not be decoded".to_string();
                proof {
                    vstd::string::to_string_from_display_ensures_for_str(
                        "the background image bytes could not be decoded",
                        r,
                    );
                }
                r
            },
        }
    }
}

/// The unsupported-sizing message with the offending mode named, as the
/// per-layer error reporting prints it.
pub fn unsupported_size_message(mode: &BackgroundSize) -> (r: String)
    ensures
        *mode is Contain ==> r@
            == "the 'Contain' sizing mode is not implemented for background gradients and colors; use an explicit dimension such as width = '100%'"@,
        *mode is Cover ==> r@
            == "the 'Cover' sizing mode is not implemented for background gradients and colors; use an explicit dimension such as width = '100%'"@,
{
    match mode {
        BackgroundSize::Contain => {
            let r =
                "the 'Contain' sizing mode is not implemented for background gradients and colors; use an explicit dimension such as width = '100%'".to_string();
            proof {
                vstd::string::to_string_from_display_ensures_for_str(
                    "the 'Contain' sizing mode is not implemented for background gradients and colors; use an explicit dimension such as width = '100%'",
                    r,
                );
            }
            r
        },
        BackgroundSize::Cover => {
            let r =
                "the 'Cover' sizing mode is not implemented for background gradients and colors; use an explicit dimension such as width = '100%'".to_string();
            proof {
                vstd::string::to_string_from_display_ensures_for_str(
                    "the 'Cover' sizing mode is not implemented for background gradients and colors; use an explicit dimension such as width = '100%'",
                    r,
                );
            }
            r
        },
        BackgroundSize::Dimension(_) => BackgroundError::SpecificationUnsupported.message(),
    }
}

/// The I/O failure message naming the file, as the per-layer error
/// reporting prints it.
pub fn io_failure_message(path: &String) -> (r: String)
    ensures
        r@ == "the background image file could not be stat'd or read: "@ + path@,
{
    let mut r = "the background image file could not be stat'd or read: ".to_string();
    proof {
        vstd::string::to_string_from_display_ensures_for_str(
            "the background image file could not be stat'd or read: ",
            r,
        );
    }
    r.push_str(path.as_str());
    r
}

} // verus!
