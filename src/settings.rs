use vstd::prelude::*;
use crate::geometry::Resolution;

verus! {

/// Pipeline settings, fixed for the lifetime of the process.
#[derive(Clone, Copy, Debug, PartialEq, Eq, Structural)]
pub struct Settings {
    pub framerate: u32,
    pub capture: Resolution,
    pub detection: Resolution,
}

/// Why a set of settings is refused.
#[derive(Clone, Copy, Debug, PartialEq, Eq, Structural)]
pub enum ConfigError {
    /// A width or height is zero.
    ZeroResolution,
    /// The detection resolution is larger than the capture resolution in
    /// some dimension.
    DetectionExceedsCapture,
    /// A frame at capture resolution would not fit in memory.
    TooLarge,
}

/// A frame of this resolution can be held in memory.
pub open spec fn fits_memory(r: Resolution) -> bool {
    4 * (r.width * r.height) <= usize::MAX
}

impl Settings {
    /// Both resolutions are non-empty, detection only shrinks, and a frame at
    /// capture resolution fits in memory.
    pub open spec fn valid(self) -> bool {
        &&& self.capture.valid()
        &&& self.detection.valid()
        &&& self.detection.width <= self.capture.width
        &&& self.detection.height <= self.capture.height
        &&& fits_memory(self.capture)
    }

    /// The fast path applies: detection runs at capture resolution.
    pub open spec fn fast_path(self) -> bool {
        self.detection == self.capture
    }

    /// Accepts valid settings; otherwise reports the first problem found, in
    /// the order empty resolution, growing detection, size.
    pub fn validate(&self) -> (r: Result<(), ConfigError>)
        ensures
            r is Ok <==> self.valid(),
            r == Err::<(), ConfigError>(ConfigError::ZeroResolution) <==> !(
            self.capture.valid() && self.detection.valid()),
            r == Err::<(), ConfigError>(ConfigError::DetectionExceedsCapture) <==> (
            self.capture.valid() && self.detection.valid() && !(self.detection.width
                <= self.capture.width && self.detection.height <= self.capture.height)),
            r == Err::<(), ConfigError>(ConfigError::TooLarge) <==> (self.capture.valid()
                && self.detection.valid() && self.detection.width <= self.capture.width
                && self.detection.height <= self.capture.height && !fits_memory(self.capture)),
    {
        if self.capture.width == 0 || self.capture.height == 0 || self.detection.width == 0
            || self.detection.height == 0 {
            return Err(ConfigError::ZeroResolution);
        }
        if self.detection.width > self.capture.width || self.detection.height
            > self.capture.height {
            return Err(ConfigError::DetectionExceedsCapture);
        }
        proof {
            let w = self.capture.width as int;
            let h = self.capture.height as int;
            assert(0 <= w * h <= 0xffff_ffff * 0xffff_ffff) by (nonlinear_arith)
                requires
                    0 <= w <= 0xffff_ffff,
                    0 <= h <= 0xffff_ffff,
            ;
        }
        let bytes: u128 = 4 * (self.capture.width as u128 * self.capture.height as u128);
        if bytes > usize::MAX as u128 {
            return Err(ConfigError::TooLarge);
        }
        Ok(())
    }

    /// Whether detection runs at capture resolution, so that no scaling is
    /// needed.
    pub fn uses_fast_path(&self) -> (r: bool)
        ensures
            r == self.fast_path(),
    {
        self.detection == self.capture
    }
}

impl Default for Settings {
    /// Capture at 1280 × 720 and 30 frames per second; detect at 340 × 180.
    fn default() -> (r: Settings)
        ensures
            r.capture == (Resolution { width: 1280, height: 720 }),
            r.detection == (Resolution { width: 340, height: 180 }),
            r.framerate == 30,
            r.valid(),
            !r.fast_path(),
    {
        Settings {
            capture: Resolution { width: 1280, height: 720 },
            detection: Resolution { width: 340, height: 180 },
            framerate: 30,
        }
    }
}

} // verus!
