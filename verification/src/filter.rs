//! The resampling filters that an image can be scaled with, by the names
//! that the command surface gives them.

use vstd::prelude::*;

verus! {

/// A resampling filter.
#[derive(Clone, Copy, Debug, PartialEq, Eq, Structural)]
pub enum FilterKind {
    /// Nearest neighbour.
    Nearest,
    /// Linear: a triangle kernel.
    Linear,
    /// Cubic: the Catmull-Rom spline.
    Cubic,
    Gaussian,
    /// Lanczos with window 3.
    Lanczos3,
}

impl FilterKind {
    /// The filter that `name` stands for, if it is one of `nearest`,
    /// `linear`, `cubic`, `gaussian` and `lanczos3`.
    pub open spec fn from_name_spec(name: Seq<char>) -> Option<FilterKind> {
        if name == "nearest"@ {
            Some(FilterKind::Nearest)
        } else if name == "linear"@ {
            Some(FilterKind::Linear)
        } else if name == "cubic"@ {
            Some(FilterKind::Cubic)
        } else if name == "gaussian"@ {
            Some(FilterKind::Gaussian)
        } else if name == "lanczos3"@ {
            Some(FilterKind::Lanczos3)
        } else {
            None
        }
    }

    /// The filter of that name; `None` for any other text.
    pub fn from_name(name: &str) -> (kind: Option<FilterKind>)
        ensures
            kind == Self::from_name_spec(name@),
    {
        let given: String = name.to_owned();
        if given.eq(&"nearest".to_owned()) {
            Some(FilterKind::Nearest)
        } else if given.eq(&"linear".to_owned()) {
            Some(FilterKind::Linear)
        } else if given.eq(&"cubic".to_owned()) {
            Some(FilterKind::Cubic)
        } else if given.eq(&"gaussian".to_owned()) {
            Some(FilterKind::Gaussian)
        } else if given.eq(&"lanczos3".to_owned()) {
            Some(FilterKind::Lanczos3)
        } else {
            None
        }
    }
}

} // verus!
