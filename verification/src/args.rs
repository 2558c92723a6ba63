//! Startup configuration.

use vstd::prelude::*;
use crate::complex::Complex;
use crate::fixed::{Fixed, ONE};

verus! {

/// The colour schemes that a renderer can be switched to.
#[derive(Clone, Copy, Debug, PartialEq, Eq, Structural)]
pub enum ColorScheme {
    Smooth,
    Zebra,
    Red,
    Blue,
    BlackAndWhite,
    Rainbow,
    Psychedelic,
    GreenGradient,
    Electric,
}

/// Progressive refinement: whether it is on, and the stride of the first,
/// coarsest pass.
#[derive(Clone, Copy, Debug, PartialEq, Eq, Structural)]
pub struct ScanConfig {
    pub enabled: bool,
    pub initial_stride: u32,
}

impl Default for ScanConfig {
    /// Refinement switched on, starting with every eighth pixel.
    fn default() -> (c: Self)
        ensures
            c == (ScanConfig { enabled: true, initial_stride: 8 }),
    {
        Self { enabled: true, initial_stride: 8 }
    }
}

/// Why a configuration was rejected.
#[derive(Clone, Copy, Debug, PartialEq, Eq, Structural)]
pub enum ConfigError {
    /// The width or the height is zero.
    EmptyTarget,
    /// The iteration cap is zero.
    NoIterations,
    /// The region has no width or no height, or is inverted.
    DegenerateRegion,
}

impl ConfigError {
    /// The message that goes with the error.
    pub fn message(self) -> (s: &'static str)
        ensures
            s@ == config_error_text(self),
    {
        match self {
            ConfigError::EmptyTarget => "Width and height must be greater than 0",
            ConfigError::NoIterations => "Max iterations must be greater than 0",
            ConfigError::DegenerateRegion => "Region must have a positive width and height",
        }
    }
}

/// The text of each error.
pub open spec fn config_error_text(e: ConfigError) -> Seq<char> {
    match e {
        ConfigError::EmptyTarget => "Width and height must be greater than 0"@,
        ConfigError::NoIterations => "Max iterations must be greater than 0"@,
        ConfigError::DegenerateRegion => "Region must have a positive width and height"@,
    }
}

/// Whether the corners span a region of positive width and height: the upper
/// left corner lies to the left of and above the lower right one.
pub open spec fn region_ok(upper_left: (int, int), lower_right: (int, int)) -> bool {
    upper_left.0 < lower_right.0 && lower_right.1 < upper_left.1
}

/// The first reason, in the order size, iterations, region, for which the
/// given options are rejected, if there is one.
pub open spec fn config_fault(
    width: u32,
    height: u32,
    max_iterations: u32,
    upper_left: (int, int),
    lower_right: (int, int),
) -> Option<ConfigError> {
    if width == 0 || height == 0 {
        Some(ConfigError::EmptyTarget)
    } else if max_iterations == 0 {
        Some(ConfigError::NoIterations)
    } else if !region_ok(upper_left, lower_right) {
        Some(ConfigError::DegenerateRegion)
    } else {
        None
    }
}

/// The startup options of a renderer.
#[derive(Clone, Copy, Debug)]
pub struct Args {
    width: u32,
    height: u32,
    upper_left: Complex,
    lower_right: Complex,
    max_iterations: u32,
    color_scheme: ColorScheme,
    fullscreen: bool,
    scan_config: ScanConfig,
}

/// What a set of options holds.
pub struct ArgsView {
    pub width: u32,
    pub height: u32,
    pub upper_left: (int, int),
    pub lower_right: (int, int),
    pub max_iterations: u32,
    pub color_scheme: ColorScheme,
    pub fullscreen: bool,
    pub scan_config: ScanConfig,
}

impl ArgsView {
    /// Whether the options are acceptable: a target of at least one pixel, at
    /// least one iteration, and a region of positive width and height.
    pub open spec fn valid(self) -> bool {
        config_fault(
            self.width,
            self.height,
            self.max_iterations,
            self.upper_left,
            self.lower_right,
        ).is_none()
    }
}

impl View for Args {
    type V = ArgsView;

    closed spec fn view(&self) -> ArgsView {
        ArgsView {
            width: self.width,
            height: self.height,
            upper_left: self.upper_left@,
            lower_right: self.lower_right@,
            max_iterations: self.max_iterations,
            color_scheme: self.color_scheme,
            fullscreen: self.fullscreen,
            scan_config: self.scan_config,
        }
    }
}

impl Args {
    /// Options with the default refinement.  Unacceptable options are outside
    /// the domain of this constructor; `try_new` reports them instead.
    pub fn new(
        width: u32,
        height: u32,
        max_iterations: u32,
        fullscreen: bool,
        upper_left: Complex,
        lower_right: Complex,
        color_scheme: ColorScheme,
    ) -> (a: Self)
        requires
            config_fault(width, height, max_iterations, upper_left@, lower_right@).is_none(),
        ensures
            a@.valid(),
            a@ == (ArgsView {
                width,
                height,
                upper_left: upper_left@,
                lower_right: lower_right@,
                max_iterations,
                color_scheme,
                fullscreen,
                scan_config: ScanConfig { enabled: true, initial_stride: 8 },
            }),
    {
        Self {
            width,
            height,
            upper_left,
            lower_right,
            max_iterations,
            color_scheme,
            fullscreen,
            scan_config: ScanConfig::default(),
        }
    }

    /// Validates the options and builds them, or says why they are rejected.
    pub fn try_new(
        width: u32,
        height: u32,
        max_iterations: u32,
        fullscreen: bool,
        upper_left: Complex,
        lower_right: Complex,
        color_scheme: ColorScheme,
    ) -> (r: Result<Self, ConfigError>)
        ensures
            match config_fault(width, height, max_iterations, upper_left@, lower_right@) {
                Some(e) => r == Err::<Self, ConfigError>(e),
                None => r.is_ok() && r.unwrap()@.valid() && r.unwrap()@ == (ArgsView {
                    width,
                    height,
                    upper_left: upper_left@,
                    lower_right: lower_right@,
                    max_iterations,
                    color_scheme,
                    fullscreen,
                    scan_config: ScanConfig { enabled: true, initial_stride: 8 },
                }),
            },
    {
        if width == 0 || height == 0 {
            return Err(ConfigError::EmptyTarget);
        }
        if max_iterations == 0 {
            return Err(ConfigError::NoIterations);
        }
        if !(upper_left.re.to_raw() < lower_right.re.to_raw() && lower_right.im.to_raw()
            < upper_left.im.to_raw()) {
            return Err(ConfigError::DegenerateRegion);
        }
        Ok(Self::new(
            width,
            height,
            max_iterations,
            fullscreen,
            upper_left,
            lower_right,
            color_scheme,
        ))
    }

    /// The same options with another refinement.
    pub fn with_scan_config(self, enabled: bool, initial_stride: u32) -> (a: Self)
        ensures
            a@ == (ArgsView { scan_config: ScanConfig { enabled, initial_stride }, ..self@ }),
    {
        let mut a = self;
        a.scan_config = ScanConfig { enabled, initial_stride };
        a
    }

    /// The same options with another target size.
    pub fn with_size(self, width: u32, height: u32) -> (a: Self)
        requires
            width > 0,
            height > 0,
        ensures
            a@ == (ArgsView { width, height, ..self@ }),
    {
        let mut a = self;
        a.width = width;
        a.height = height;
        a
    }

    /// The same options with another iteration cap.
    pub fn with_max_iterations(self, max_iterations: u32) -> (a: Self)
        requires
            max_iterations > 0,
        ensures
            a@ == (ArgsView { max_iterations, ..self@ }),
    {
        let mut a = self;
        a.max_iterations = max_iterations;
        a
    }

    pub fn get_width(&self) -> (w: u32)
        ensures
            w == self@.width,
    {
        self.width
    }

    pub fn get_height(&self) -> (h: u32)
        ensures
            h == self@.height,
    {
        self.height
    }

    pub fn get_upper_left(&self) -> (c: Complex)
        ensures
            c@ == self@.upper_left,
    {
        self.upper_left
    }

    pub fn get_lower_right(&self) -> (c: Complex)
        ensures
            c@ == self@.lower_right,
    {
        self.lower_right
    }

    pub fn get_max_iterations(&self) -> (n: u32)
        ensures
            n == self@.max_iterations,
    {
        self.max_iterations
    }

    pub fn get_color_scheme(&self) -> (s: ColorScheme)
        ensures
            s == self@.color_scheme,
    {
        self.color_scheme
    }

    pub fn get_scan_config(&self) -> (c: ScanConfig)
        ensures
            c == self@.scan_config,
    {
        self.scan_config
    }

    pub fn is_fullscreen(&self) -> (f: bool)
        ensures
            f == self@.fullscreen,
    {
        self.fullscreen
    }
}

impl Default for Args {
    /// A square target of 800 pixels on the region from `-2.5 + 1.5i` to
    /// `1.5 - 2.5i`, 200 iterations, the red scheme and the default
    /// refinement.
    fn default() -> (a: Self)
        ensures
            a@.valid(),
            a@ == (ArgsView {
                width: 800,
                height: 800,
                upper_left: (-5 * (ONE / 2), 3 * (ONE / 2)),
                lower_right: (3 * (ONE / 2), -5 * (ONE / 2)),
                max_iterations: 200,
                color_scheme: ColorScheme::Red,
                fullscreen: false,
                scan_config: ScanConfig { enabled: true, initial_stride: 8 },
            }),
    {
        let half: i64 = ONE / 2;
        Self {
            width: 800,
            height: 800,
            upper_left: Complex::new(Fixed::from_raw(-5 * half), Fixed::from_raw(3 * half)),
            lower_right: Complex::new(Fixed::from_raw(3 * half), Fixed::from_raw(-5 * half)),
            max_iterations: 200,
            color_scheme: ColorScheme::Red,
            fullscreen: false,
            scan_config: ScanConfig::default(),
        }
    }
}

} // verus!
