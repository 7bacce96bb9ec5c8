//! Error-diffusion kernels: where a pixel's quantisation error goes, and how much of it.
//!
//! Each tap is `(dx, dy, weight)`, scaled by the kernel's divisor. The image is traversed left to right, top to
//! bottom, so a tap may only point at a pixel not yet visited: one further along the same row, or one on a later row.

use vstd::prelude::*;

use crate::bayer::BayerSize;

verus! {

/// An error-diffusion kernel: where to push the error, and by how much.
///
/// Offsets are `(dx, dy, weight)` and are scaled by `divisor`.
#[derive(Debug, Clone, Copy, PartialEq, Eq)]
pub struct Kernel {
    pub name: &'static str,
    pub offsets: &'static [(i32, i32, i32)],
    pub divisor: i32,
}

/// The sum of a kernel's weights.
pub open spec fn weight_sum(offsets: Seq<(i32, i32, i32)>) -> int
    decreases offsets.len(),
{
    if offsets.len() == 0 {
        0
    } else {
        weight_sum(offsets.drop_last()) + offsets.last().2
    }
}

/// Whether every tap points forward, at a pixel the traversal has not reached yet, with a positive weight.
pub open spec fn pushes_forward(offsets: Seq<(i32, i32, i32)>) -> bool {
    forall|i: int|
        0 <= i < offsets.len() ==> (#[trigger] offsets[i]).1 > 0 || (offsets[i].1 == 0 && offsets[i].0 > 0)
}

/// Whether every tap carries a positive weight.
pub open spec fn positive_weights(offsets: Seq<(i32, i32, i32)>) -> bool {
    forall|i: int| 0 <= i < offsets.len() ==> (#[trigger] offsets[i]).2 > 0
}

/// One tap, `(dx, dy, weight)`.
pub open spec fn tap(dx: int, dy: int, weight: int) -> (i32, i32, i32) {
    (dx as i32, dy as i32, weight as i32)
}

/// The taps and divisor of the kernel that goes by `name`, or `None` for a name no kernel has.
pub open spec fn named_kernel(name: Seq<char>) -> Option<(Seq<(i32, i32, i32)>, i32)> {
    if name == "floyd-steinberg"@ {
        Some((seq![tap(1, 0, 7), tap(-1, 1, 3), tap(0, 1, 5), tap(1, 1, 1)], 16))
    } else if name == "atkinson"@ {
        Some((seq![tap(1, 0, 1), tap(2, 0, 1), tap(-1, 1, 1), tap(0, 1, 1), tap(1, 1, 1), tap(0, 2, 1)], 8))
    } else if name == "stucki"@ {
        Some((seq![tap(1, 0, 8), tap(2, 0, 4), tap(-2, 1, 2), tap(-1, 1, 4), tap(0, 1, 8), tap(1, 1, 4), tap(2, 1, 2), tap(-2, 2, 1), tap(-1, 2, 2), tap(0, 2, 4), tap(1, 2, 2), tap(2, 2, 1)], 42))
    } else if name == "burkes"@ {
        Some((seq![tap(1, 0, 8), tap(2, 0, 4), tap(-2, 1, 2), tap(-1, 1, 4), tap(0, 1, 8), tap(1, 1, 4), tap(2, 1, 2)], 32))
    } else if name == "jarvis"@ {
        Some((seq![tap(1, 0, 7), tap(2, 0, 5), tap(-2, 1, 3), tap(-1, 1, 5), tap(0, 1, 7), tap(1, 1, 5), tap(2, 1, 3), tap(-2, 2, 1), tap(-1, 2, 3), tap(0, 2, 5), tap(1, 2, 3), tap(2, 2, 1)], 48))
    } else {
        None
    }
}

/// Whether a kernel is the one its name says: the taps and divisor [`named_kernel`] lists under it.
pub open spec fn is_named_kernel(kernel: Kernel) -> bool {
    named_kernel(kernel.name@) == Some((kernel.offsets@, kernel.divisor))
}

/// No two kernels share a name.
proof fn lemma_kernel_names_differ()
    ensures
        "atkinson"@ != "floyd-steinberg"@,
        "stucki"@ != "floyd-steinberg"@,
        "stucki"@ != "atkinson"@,
        "burkes"@ != "floyd-steinberg"@,
        "burkes"@ != "atkinson"@,
        "burkes"@ != "stucki"@,
        "jarvis"@ != "floyd-steinberg"@,
        "jarvis"@ != "atkinson"@,
        "jarvis"@ != "stucki"@,
        "jarvis"@ != "burkes"@,
{
    reveal_strlit("floyd-steinberg");
    reveal_strlit("atkinson");
    reveal_strlit("stucki");
    reveal_strlit("burkes");
    reveal_strlit("jarvis");
    assert("atkinson"@[0] != "floyd-steinberg"@[0]);
    assert("burkes"@[0] != "stucki"@[0]);
    assert("jarvis"@[0] != "stucki"@[0]);
    assert("jarvis"@[0] != "burkes"@[0]);
}

/// The classic. Sharp, and the default here.
pub fn floyd_steinberg() -> (kernel: Kernel)
    ensures
        kernel.name@ == "floyd-steinberg"@,
        kernel.offsets@ == seq![tap(1, 0, 7), tap(-1, 1, 3), tap(0, 1, 5), tap(1, 1, 1)],
        kernel.divisor == 16,
        pushes_forward(kernel.offsets@),
        positive_weights(kernel.offsets@),
        weight_sum(kernel.offsets@) == kernel.divisor,
        is_named_kernel(kernel),
{
    let kernel = Kernel {
        name: "floyd-steinberg",
        offsets: &[(1, 0, 7), (-1, 1, 3), (0, 1, 5), (1, 1, 1)],
        divisor: 16,
    };
    assert(kernel.offsets@ =~= seq![tap(1, 0, 7), tap(-1, 1, 3), tap(0, 1, 5), tap(1, 1, 1)]);
    proof {
        lemma_kernel_names_differ();
    }
    proof {
        reveal_with_fuel(weight_sum, 5);
    }
    kernel
}

/// Discards some error on purpose, giving cleaner highlights and more contrast: its weights sum to less than its
/// divisor.
pub fn atkinson() -> (kernel: Kernel)
    ensures
        kernel.name@ == "atkinson"@,
        kernel.offsets@ == seq![tap(1, 0, 1), tap(2, 0, 1), tap(-1, 1, 1), tap(0, 1, 1), tap(1, 1, 1), tap(0, 2, 1)],
        kernel.divisor == 8,
        pushes_forward(kernel.offsets@),
        positive_weights(kernel.offsets@),
        weight_sum(kernel.offsets@) < kernel.divisor,
        is_named_kernel(kernel),
{
    let kernel = Kernel {
        name: "atkinson",
        offsets: &[(1, 0, 1), (2, 0, 1), (-1, 1, 1), (0, 1, 1), (1, 1, 1), (0, 2, 1)],
        divisor: 8,
    };
    assert(kernel.offsets@ =~= seq![tap(1, 0, 1), tap(2, 0, 1), tap(-1, 1, 1), tap(0, 1, 1), tap(1, 1, 1), tap(0, 2, 1)]);
    proof {
        lemma_kernel_names_differ();
    }
    proof {
        reveal_with_fuel(weight_sum, 7);
    }
    kernel
}

/// Wider spread than Floyd-Steinberg, so smoother gradients.
pub fn stucki() -> (kernel: Kernel)
    ensures
        kernel.name@ == "stucki"@,
        kernel.offsets@ == seq![tap(1, 0, 8), tap(2, 0, 4), tap(-2, 1, 2), tap(-1, 1, 4), tap(0, 1, 8), tap(1, 1, 4), tap(2, 1, 2), tap(-2, 2, 1), tap(-1, 2, 2), tap(0, 2, 4), tap(1, 2, 2), tap(2, 2, 1)],
        kernel.divisor == 42,
        pushes_forward(kernel.offsets@),
        positive_weights(kernel.offsets@),
        weight_sum(kernel.offsets@) == kernel.divisor,
        is_named_kernel(kernel),
{
    let kernel = Kernel {
        name: "stucki",
        offsets: &[(1, 0, 8), (2, 0, 4), (-2, 1, 2), (-1, 1, 4), (0, 1, 8), (1, 1, 4), (2, 1, 2), (-2, 2, 1), (-1, 2, 2), (0, 2, 4), (1, 2, 2), (2, 2, 1)],
        divisor: 42,
    };
    assert(kernel.offsets@ =~= seq![tap(1, 0, 8), tap(2, 0, 4), tap(-2, 1, 2), tap(-1, 1, 4), tap(0, 1, 8), tap(1, 1, 4), tap(2, 1, 2), tap(-2, 2, 1), tap(-1, 2, 2), tap(0, 2, 4), tap(1, 2, 2), tap(2, 2, 1)]);
    proof {
        lemma_kernel_names_differ();
    }
    proof {
        reveal_with_fuel(weight_sum, 13);
    }
    kernel
}

/// Like Stucki but cheaper, with a slightly grainier look.
pub fn burkes() -> (kernel: Kernel)
    ensures
        kernel.name@ == "burkes"@,
        kernel.offsets@ == seq![tap(1, 0, 8), tap(2, 0, 4), tap(-2, 1, 2), tap(-1, 1, 4), tap(0, 1, 8), tap(1, 1, 4), tap(2, 1, 2)],
        kernel.divisor == 32,
        pushes_forward(kernel.offsets@),
        positive_weights(kernel.offsets@),
        weight_sum(kernel.offsets@) == kernel.divisor,
        is_named_kernel(kernel),
{
    let kernel = Kernel {
        name: "burkes",
        offsets: &[(1, 0, 8), (2, 0, 4), (-2, 1, 2), (-1, 1, 4), (0, 1, 8), (1, 1, 4), (2, 1, 2)],
        divisor: 32,
    };
    assert(kernel.offsets@ =~= seq![tap(1, 0, 8), tap(2, 0, 4), tap(-2, 1, 2), tap(-1, 1, 4), tap(0, 1, 8), tap(1, 1, 4), tap(2, 1, 2)]);
    proof {
        lemma_kernel_names_differ();
    }
    proof {
        reveal_with_fuel(weight_sum, 8);
    }
    kernel
}

/// The widest of the classic kernels, and the smoothest.
pub fn jarvis_judice_ninke() -> (kernel: Kernel)
    ensures
        kernel.name@ == "jarvis"@,
        kernel.offsets@ == seq![tap(1, 0, 7), tap(2, 0, 5), tap(-2, 1, 3), tap(-1, 1, 5), tap(0, 1, 7), tap(1, 1, 5), tap(2, 1, 3), tap(-2, 2, 1), tap(-1, 2, 3), tap(0, 2, 5), tap(1, 2, 3), tap(2, 2, 1)],
        kernel.divisor == 48,
        pushes_forward(kernel.offsets@),
        positive_weights(kernel.offsets@),
        weight_sum(kernel.offsets@) == kernel.divisor,
        is_named_kernel(kernel),
{
    let kernel = Kernel {
        name: "jarvis",
        offsets: &[(1, 0, 7), (2, 0, 5), (-2, 1, 3), (-1, 1, 5), (0, 1, 7), (1, 1, 5), (2, 1, 3), (-2, 2, 1), (-1, 2, 3), (0, 2, 5), (1, 2, 3), (2, 2, 1)],
        divisor: 48,
    };
    assert(kernel.offsets@ =~= seq![tap(1, 0, 7), tap(2, 0, 5), tap(-2, 1, 3), tap(-1, 1, 5), tap(0, 1, 7), tap(1, 1, 5), tap(2, 1, 3), tap(-2, 2, 1), tap(-1, 2, 3), tap(0, 2, 5), tap(1, 2, 3), tap(2, 2, 1)]);
    proof {
        lemma_kernel_names_differ();
    }
    proof {
        reveal_with_fuel(weight_sum, 13);
    }
    kernel
}

/// Every kernel, Floyd-Steinberg, Atkinson, Stucki, Burkes and Jarvis-Judice-Ninke, in the order the command line lists them.
pub fn kernels() -> (all: [Kernel; 5])
    ensures
        forall|i: int| 0 <= i < 5 ==> pushes_forward(#[trigger] all[i].offsets@) && positive_weights(all[i].offsets@),
        forall|i: int| 0 <= i < 5 ==> is_named_kernel(#[trigger] all[i]),
        forall|i: int| 0 <= i < 5 && i != 1 ==> weight_sum(#[trigger] all[i].offsets@) == all[i].divisor,
        weight_sum(all[1].offsets@) < all[1].divisor,
        all[0].name@ == "floyd-steinberg"@,
        all[1].name@ == "atkinson"@,
        all[2].name@ == "stucki"@,
        all[3].name@ == "burkes"@,
        all[4].name@ == "jarvis"@,
{
    [floyd_steinberg(), atkinson(), stucki(), burkes(), jarvis_judice_ninke()]
}

/// Which dithering algorithm to run.
#[derive(Debug, Clone, Copy, PartialEq, Eq)]
pub enum DitherMethod {
    /// Error diffusion with the given kernel.
    ErrorDiffusion(Kernel),
    /// Bayer threshold matrix.
    Ordered,
}

impl Default for DitherMethod {
    /// Plain Floyd-Steinberg.
    fn default() -> (method: DitherMethod)
        ensures
            method matches DitherMethod::ErrorDiffusion(kernel) && kernel.name@ == "floyd-steinberg"@
                && is_named_kernel(kernel),
    {
        DitherMethod::ErrorDiffusion(floyd_steinberg())
    }
}

impl DitherMethod {
    /// Parses the spelling a camera settings file uses: `floyd_steinberg` or `ordered`.
    pub fn from_settings_name(name: &str) -> (method: Option<DitherMethod>)
        ensures
            name@ == "floyd_steinberg"@ ==> (method matches Some(DitherMethod::ErrorDiffusion(kernel))
                && kernel.name@ == "floyd-steinberg"@ && is_named_kernel(kernel)),
            name@ == "ordered"@ ==> method == Some(DitherMethod::Ordered),
            name@ != "floyd_steinberg"@ && name@ != "ordered"@ ==> method is None,
    {
        proof {
            reveal_strlit("floyd_steinberg");
            reveal_strlit("ordered");
            assert("floyd_steinberg"@.len() != "ordered"@.len());
        }
        if crate::text::str_eq(name, "floyd_steinberg") {
            Some(DitherMethod::ErrorDiffusion(floyd_steinberg()))
        } else if crate::text::str_eq(name, "ordered") {
            Some(DitherMethod::Ordered)
        } else {
            None
        }
    }

    /// The spelling a camera settings file uses. Kernels the settings file does not know about report as
    /// `floyd_steinberg`, since that is the setting they are closest to.
    pub fn settings_name(self) -> (name: &'static str)
        ensures
            self is Ordered ==> name@ == "ordered"@,
            self is ErrorDiffusion ==> name@ == "floyd_steinberg"@,
    {
        match self {
            DitherMethod::ErrorDiffusion(_) => "floyd_steinberg",
            DitherMethod::Ordered => "ordered",
        }
    }
}

/// The default saturation, 0.6, as a binary64 bit pattern.
pub const DEFAULT_SATURATION: u64 = 0x3fe3_3333_3333_3333;

/// The default brightness factor, 1.1, as a binary64 bit pattern.
pub const DEFAULT_BRIGHTNESS: u64 = 0x3ff1_9999_9999_999a;

/// The default colour factor, 1.4, as a binary64 bit pattern.
pub const DEFAULT_COLOR: u64 = 0x3ff6_6666_6666_6666;

/// The default Bayer threshold scale, 1.0, as a binary64 bit pattern.
pub const DEFAULT_THRESHOLD_SCALE: u64 = 0x3ff0_0000_0000_0000;

/// What the dithering pass is asked to do.
///
/// The four tuning values are doubles, carried as their binary64 bit patterns: the pass that reads them works in
/// floating point, and nothing on this side does arithmetic on them.
#[derive(Debug, Clone, Copy, PartialEq)]
pub struct DitherOptions {
    /// Blend between the pure and the muted palettes, 0.0 to 1.0.
    pub saturation: u64,
    /// Brightness multiplier applied before dithering.
    pub brightness_factor: u64,
    /// Colour intensity multiplier applied before dithering.
    pub color_factor: u64,
    pub method: DitherMethod,
    /// Bayer matrix size. Ordered dithering only.
    pub bayer_size: BayerSize,
    /// Scales the Bayer threshold amplitude. Ordered dithering only.
    pub threshold_scale: u64,
}

impl Default for DitherOptions {
    /// Saturation 0.6, brightness 1.1, colour 1.4, Floyd-Steinberg, a 4x4 Bayer matrix at full amplitude.
    fn default() -> (options: DitherOptions)
        ensures
            options.saturation == DEFAULT_SATURATION,
            options.brightness_factor == DEFAULT_BRIGHTNESS,
            options.color_factor == DEFAULT_COLOR,
            options.method matches DitherMethod::ErrorDiffusion(kernel) && kernel.name@ == "floyd-steinberg"@
                && is_named_kernel(kernel),
            options.bayer_size == BayerSize::Four,
            options.threshold_scale == DEFAULT_THRESHOLD_SCALE,
    {
        DitherOptions {
            saturation: DEFAULT_SATURATION,
            brightness_factor: DEFAULT_BRIGHTNESS,
            color_factor: DEFAULT_COLOR,
            method: DitherMethod::ErrorDiffusion(floyd_steinberg()),
            bayer_size: BayerSize::Four,
            threshold_scale: DEFAULT_THRESHOLD_SCALE,
        }
    }
}

} // verus!
