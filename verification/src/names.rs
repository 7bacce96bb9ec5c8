//! The settings a user picks from a list, and the names each goes by on the wire and on screen.

use vstd::prelude::*;

use crate::geometry::CropOrigin;
use crate::kernel::{DitherMethod, atkinson, burkes, floyd_steinberg, is_named_kernel, jarvis_judice_ninke, stucki};
use crate::text::str_eq;

verus! {

/// Which dithering algorithm runs, named as the HTTP API names it.
#[derive(Debug, Clone, Copy, PartialEq, Eq, Structural)]
pub enum Method {
    FloydSteinberg,
    Atkinson,
    Stucki,
    Burkes,
    Jarvis,
    Ordered,
    /// No dithering: the photo comes back resized and cropped, and nothing else.
    ///
    /// For checking the framing, where the dither pattern is in the way. The palette settings and the output format do
    /// not apply, since there is no palette: the result is always a plain RGB image.
    NoDither,
}

/// The wire name of a method, which is also what a picker's `<option>` carries.
pub open spec fn spec_method_slug(method: Method) -> Seq<char> {
    match method {
        Method::FloydSteinberg => "floyd-steinberg"@,
        Method::Atkinson => "atkinson"@,
        Method::Stucki => "stucki"@,
        Method::Burkes => "burkes"@,
        Method::Jarvis => "jarvis"@,
        Method::Ordered => "ordered"@,
        Method::NoDither => "none"@,
    }
}

/// The method a position in [`Method::ALL`] holds.
pub open spec fn method_at(i: int) -> Method {
    if i == 0 {
        Method::FloydSteinberg
    } else if i == 1 {
        Method::Atkinson
    } else if i == 2 {
        Method::Stucki
    } else if i == 3 {
        Method::Burkes
    } else if i == 4 {
        Method::Jarvis
    } else if i == 5 {
        Method::Ordered
    } else {
        Method::NoDither
    }
}

proof fn lemma_method_slugs_differ(i: int, j: int)
    requires
        0 <= i < 7,
        0 <= j < 7,
        i != j,
    ensures
        spec_method_slug(method_at(i)) != spec_method_slug(method_at(j)),
{
    reveal_strlit("floyd-steinberg");
    reveal_strlit("atkinson");
    reveal_strlit("stucki");
    reveal_strlit("burkes");
    reveal_strlit("jarvis");
    reveal_strlit("ordered");
    reveal_strlit("none");
    let a = spec_method_slug(method_at(i));
    let b = spec_method_slug(method_at(j));
    if a.len() == b.len() {
        assert(a[0] != b[0]);
    }
}

impl Method {
    /// Every method, in the order a picker lists them.
    pub const ALL: [Method; 7] = [
        Method::FloydSteinberg,
        Method::Atkinson,
        Method::Stucki,
        Method::Burkes,
        Method::Jarvis,
        Method::Ordered,
        Method::NoDither,
    ];

    /// The wire name, which is also the `<option>` value.
    pub fn slug(self) -> (slug: &'static str)
        ensures
            slug@ == spec_method_slug(self),
    {
        match self {
            Method::FloydSteinberg => "floyd-steinberg",
            Method::Atkinson => "atkinson",
            Method::Stucki => "stucki",
            Method::Burkes => "burkes",
            Method::Jarvis => "jarvis",
            Method::Ordered => "ordered",
            Method::NoDither => "none",
        }
    }

    /// What a dropdown shows.
    pub fn label(self) -> (label: &'static str)
        ensures
            self == Method::FloydSteinberg ==> label@ == "Floyd-Steinberg"@,
            self == Method::Atkinson ==> label@ == "Atkinson"@,
            self == Method::Stucki ==> label@ == "Stucki"@,
            self == Method::Burkes ==> label@ == "Burkes"@,
            self == Method::Jarvis ==> label@ == "Jarvis-Judice-Ninke"@,
            self == Method::Ordered ==> label@ == "Ordered (Bayer)"@,
            self == Method::NoDither ==> label@ == "None (resize only)"@,
    {
        match self {
            Method::FloydSteinberg => "Floyd-Steinberg",
            Method::Atkinson => "Atkinson",
            Method::Stucki => "Stucki",
            Method::Burkes => "Burkes",
            Method::Jarvis => "Jarvis-Judice-Ninke",
            Method::Ordered => "Ordered (Bayer)",
            Method::NoDither => "None (resize only)",
        }
    }

    /// The method whose wire name is `slug`, or `None` when no method goes by it. `floyd_steinberg` is accepted for
    /// Floyd-Steinberg too.
    pub fn parse(slug: &str) -> (method: Option<Method>)
        ensures
            method matches Some(m) ==> spec_method_slug(m) == slug@ || (m == Method::FloydSteinberg && slug@
                == "floyd_steinberg"@),
            method is None ==> slug@ != "floyd_steinberg"@ && forall|i: int|
                0 <= i < 7 ==> spec_method_slug(#[trigger] method_at(i)) != slug@,
    {
        let mut i: usize = 0;
        while i < 7
            invariant
                0 <= i <= 7,
                forall|j: int| 0 <= j < i ==> spec_method_slug(#[trigger] method_at(j)) != slug@,
            decreases 7 - i,
        {
            let method = Method::ALL[i];
            assert(method == method_at(i as int));
            if str_eq(method.slug(), slug) {
                return Some(method);
            }
            i = i + 1;
        }
        if str_eq(slug, "floyd_steinberg") {
            return Some(Method::FloydSteinberg);
        }
        None
    }

    /// Reads back what [`Method::slug`] wrote, falling back to Floyd-Steinberg for anything else.
    pub fn from_slug(slug: &str) -> (method: Method)
        ensures
            forall|i: int| 0 <= i < 7 && spec_method_slug(method_at(i)) == slug@ ==> method == method_at(i),
            (forall|i: int| 0 <= i < 7 ==> spec_method_slug(#[trigger] method_at(i)) != slug@) ==> method
                == Method::FloydSteinberg,
    {
        let mut i: usize = 0;
        while i < 7
            invariant
                0 <= i <= 7,
                forall|j: int| 0 <= j < i ==> spec_method_slug(#[trigger] method_at(j)) != slug@,
            decreases 7 - i,
        {
            let method = Method::ALL[i];
            assert(method == method_at(i as int));
            if str_eq(method.slug(), slug) {
                proof {
                    assert forall|k: int| 0 <= k < 7 && spec_method_slug(method_at(k)) == slug@ implies method
                        == method_at(k) by {
                        if k != i {
                            lemma_method_slugs_differ(k, i as int);
                        }
                    }
                }
                return method;
            }
            i = i + 1;
        }
        Method::FloydSteinberg
    }

    /// Whether the Bayer controls have anything to act on.
    pub fn is_ordered(self) -> (ordered: bool)
        ensures
            ordered == (self == Method::Ordered),
    {
        match self {
            Method::Ordered => true,
            _ => false,
        }
    }

    /// The pipeline's own method, or `None` when the settings asked for the resize alone.
    pub fn dither(self) -> (method: Option<DitherMethod>)
        ensures
            self == Method::NoDither <==> method is None,
            self == Method::Ordered <==> method matches Some(DitherMethod::Ordered),
            method matches Some(DitherMethod::ErrorDiffusion(kernel)) ==> kernel.name@ == spec_method_slug(self)
                && is_named_kernel(kernel),
    {
        proof {
            reveal_strlit("floyd-steinberg");
            reveal_strlit("atkinson");
            reveal_strlit("stucki");
            reveal_strlit("burkes");
            reveal_strlit("jarvis");
        }
        match self {
            Method::FloydSteinberg => Some(DitherMethod::ErrorDiffusion(floyd_steinberg())),
            Method::Atkinson => Some(DitherMethod::ErrorDiffusion(atkinson())),
            Method::Stucki => Some(DitherMethod::ErrorDiffusion(stucki())),
            Method::Burkes => Some(DitherMethod::ErrorDiffusion(burkes())),
            Method::Jarvis => Some(DitherMethod::ErrorDiffusion(jarvis_judice_ninke())),
            Method::Ordered => Some(DitherMethod::Ordered),
            Method::NoDither => None,
        }
    }
}

/// Every method's wire name reads back as that method, so a picker can never offer a name the endpoints refuse.
pub proof fn lemma_method_slugs_round_trip(i: int)
    requires
        0 <= i < 7,
    ensures
        forall|j: int| 0 <= j < 7 && spec_method_slug(method_at(j)) == spec_method_slug(method_at(i)) ==> j == i,
{
    assert forall|j: int| 0 <= j < 7 && spec_method_slug(method_at(j)) == spec_method_slug(method_at(i)) implies j
        == i by {
        if j != i {
            lemma_method_slugs_differ(j, i);
        }
    }
}

/// How to encode the PNG that comes back.
#[derive(Debug, Clone, Copy, PartialEq, Eq, Structural)]
pub enum Format {
    /// Indexed PNG carrying the palette, which is what the panel wants.
    Indexed,
    /// Plain RGB PNG, for viewers that dislike palette images.
    Rgb,
}

impl Format {
    /// The wire name: `indexed` or `rgb`.
    pub fn name(self) -> (name: &'static str)
        ensures
            self == Format::Indexed ==> name@ == "indexed"@,
            self == Format::Rgb ==> name@ == "rgb"@,
    {
        match self {
            Format::Indexed => "indexed",
            Format::Rgb => "rgb",
        }
    }

    /// The format a wire name stands for, or `None` when it names neither.
    pub fn parse(name: &str) -> (format: Option<Format>)
        ensures
            name@ == "indexed"@ ==> format == Some(Format::Indexed),
            name@ == "rgb"@ ==> format == Some(Format::Rgb),
            name@ != "indexed"@ && name@ != "rgb"@ ==> format is None,
    {
        proof {
            reveal_strlit("indexed");
            reveal_strlit("rgb");
            assert("indexed"@.len() != "rgb"@.len());
        }
        if str_eq(name, "indexed") {
            Some(Format::Indexed)
        } else if str_eq(name, "rgb") {
            Some(Format::Rgb)
        } else {
            None
        }
    }
}

/// Where a crop is anchored, for a picker that offers the named anchors only.
///
/// A corner is the sixth thing the pipeline accepts, and it needs a pair of source-pixel coordinates rather than a
/// menu, so a picker leaves it to a caller that can name the corner it means.
#[derive(Debug, Clone, Copy, PartialEq, Eq, Structural)]
pub struct Anchor(pub CropOrigin);

/// The wire name of an anchor. A corner is not offered, so it is never written, and reads as the centre.
pub open spec fn spec_anchor_slug(origin: CropOrigin) -> Seq<char> {
    match origin {
        CropOrigin::Top => "top"@,
        CropOrigin::Bottom => "bottom"@,
        CropOrigin::Left => "left"@,
        CropOrigin::Right => "right"@,
        _ => "center"@,
    }
}

/// The anchor a position in [`Anchor::all`] holds.
pub open spec fn anchor_at(i: int) -> CropOrigin {
    if i == 0 {
        CropOrigin::Center
    } else if i == 1 {
        CropOrigin::Top
    } else if i == 2 {
        CropOrigin::Bottom
    } else if i == 3 {
        CropOrigin::Left
    } else {
        CropOrigin::Right
    }
}

proof fn lemma_anchor_slugs_differ(i: int, j: int)
    requires
        0 <= i < 5,
        0 <= j < 5,
        i != j,
    ensures
        spec_anchor_slug(anchor_at(i)) != spec_anchor_slug(anchor_at(j)),
{
    reveal_strlit("center");
    reveal_strlit("top");
    reveal_strlit("bottom");
    reveal_strlit("left");
    reveal_strlit("right");
    let a = spec_anchor_slug(anchor_at(i));
    let b = spec_anchor_slug(anchor_at(j));
    if a.len() == b.len() {
        assert(a[0] != b[0]);
    }
}

impl Anchor {
    /// The anchors a picker offers: centre, top, bottom, left and right.
    pub fn all() -> (all: [Anchor; 5])
        ensures
            forall|i: int| 0 <= i < 5 ==> (#[trigger] all[i]).0 == anchor_at(i),
    {
        [
            Anchor(CropOrigin::Center),
            Anchor(CropOrigin::Top),
            Anchor(CropOrigin::Bottom),
            Anchor(CropOrigin::Left),
            Anchor(CropOrigin::Right),
        ]
    }

    /// The wire name, which is also the `<option>` value.
    pub fn slug(self) -> (slug: &'static str)
        ensures
            slug@ == spec_anchor_slug(self.0),
    {
        match self.0 {
            CropOrigin::Top => "top",
            CropOrigin::Bottom => "bottom",
            CropOrigin::Left => "left",
            CropOrigin::Right => "right",
            // The centre, and a corner, which is not offered and so never written.
            _ => "center",
        }
    }

    /// What a dropdown shows.
    pub fn label(self) -> (label: &'static str)
        ensures
            self.0 == CropOrigin::Top ==> label@ == "Top"@,
            self.0 == CropOrigin::Bottom ==> label@ == "Bottom"@,
            self.0 == CropOrigin::Left ==> label@ == "Left"@,
            self.0 == CropOrigin::Right ==> label@ == "Right"@,
            self.0 == CropOrigin::Center || self.0 is At ==> label@ == "Center"@,
    {
        match self.0 {
            CropOrigin::Top => "Top",
            CropOrigin::Bottom => "Bottom",
            CropOrigin::Left => "Left",
            CropOrigin::Right => "Right",
            _ => "Center",
        }
    }

    /// Reads back what [`Anchor::slug`] wrote, falling back to the centre for anything else.
    pub fn from_slug(slug: &str) -> (anchor: Anchor)
        ensures
            forall|i: int| 0 <= i < 5 && spec_anchor_slug(anchor_at(i)) == slug@ ==> anchor.0 == anchor_at(i),
            (forall|i: int| 0 <= i < 5 ==> spec_anchor_slug(#[trigger] anchor_at(i)) != slug@) ==> anchor.0
                == CropOrigin::Center,
    {
        proof {
            reveal_strlit("center");
            reveal_strlit("top");
            reveal_strlit("bottom");
            reveal_strlit("left");
            reveal_strlit("right");
        }
        let all = Anchor::all();
        let mut i: usize = 0;
        while i < 5
            invariant
                0 <= i <= 5,
                forall|j: int| 0 <= j < 5 ==> (#[trigger] all[j]).0 == anchor_at(j),
                forall|j: int| 0 <= j < i ==> spec_anchor_slug(#[trigger] anchor_at(j)) != slug@,
            decreases 5 - i,
        {
            let anchor = all[i];
            assert(anchor.0 == anchor_at(i as int));
            if str_eq(anchor.slug(), slug) {
                proof {
                    assert forall|k: int| 0 <= k < 5 && spec_anchor_slug(anchor_at(k)) == slug@ implies anchor.0
                        == anchor_at(k) by {
                        if k != i {
                            lemma_anchor_slugs_differ(k, i as int);
                        }
                    }
                }
                return anchor;
            }
            i = i + 1;
        }
        Anchor(CropOrigin::Center)
    }
}

} // verus!
