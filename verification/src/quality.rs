//! How finely curves are flattened.

use vstd::prelude::*;

verus! {

/// The number of line segments that stand for one curve of each kind.
#[derive(Clone, Copy, Debug, PartialEq, Eq, Structural)]
pub struct QualitySettings {
    /// The number of line segments that approximate one quadratic curve.
    pub quad_interpolation_steps: u16,
    /// The number of line segments that approximate one cubic curve.
    pub cubic_interpolation_steps: u16,
}

impl QualitySettings {
    /// Whether both step counts are at least one.
    pub open spec fn valid(self) -> bool {
        self.quad_interpolation_steps >= 1 && self.cubic_interpolation_steps >= 1
    }

    /// The settings that `default` returns.
    pub open spec fn spec_default() -> QualitySettings {
        QualitySettings { quad_interpolation_steps: 5, cubic_interpolation_steps: 3 }
    }

    /// Creates quality settings, unless one of the step counts is zero.
    pub fn new(quad_interpolation_steps: u16, cubic_interpolation_steps: u16) -> (quality: Option<
        QualitySettings,
    >)
        ensures
            quality == if quad_interpolation_steps >= 1 && cubic_interpolation_steps >= 1 {
                Some(QualitySettings { quad_interpolation_steps, cubic_interpolation_steps })
            } else {
                None
            },
    {
        if quad_interpolation_steps >= 1 && cubic_interpolation_steps >= 1 {
            Some(QualitySettings { quad_interpolation_steps, cubic_interpolation_steps })
        } else {
            None
        }
    }

    /// Whether both step counts are at least one.
    pub fn is_valid(&self) -> (valid: bool)
        ensures
            valid == self.valid(),
    {
        self.quad_interpolation_steps >= 1 && self.cubic_interpolation_steps >= 1
    }
}

impl Default for QualitySettings {
    /// Five segments for a quadratic curve and three for a cubic one.
    fn default() -> (quality: QualitySettings)
        ensures
            quality == QualitySettings::spec_default(),
            quality.valid(),
    {
        QualitySettings { quad_interpolation_steps: 5, cubic_interpolation_steps: 3 }
    }
}

} // verus!
