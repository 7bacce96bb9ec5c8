//! Aspect ratios that go by a name, and the one rule that turns "a size, a preset, or neither" into the pair to
//! dither at.
//!
//! A preset names a shape, never a pixel count. [`ratio_size`] fits it inside whatever working size was asked for, so
//! how much to dither stays the caller's to pick and a preset only ever reframes it.

use vstd::prelude::*;

use crate::geometry::{
    lemma_ratio_fit_inside, lemma_ratio_size_inside, max_side, ratio_inside, ratio_size, spec_orient_target,
    spec_ratio_inside, spec_ratio_size,
};
use crate::text::str_eq;

verus! {

/// The named ratios, `(name, (width, height))`, where the pair is a shape rather than a pixel count.
///
/// The two panel entries are the layouts the frame buffer takes, and against the pipeline's own 600x400 they land on
/// it exactly. The rest are the shapes the platforms crop to. A preset names one orientation; the other one is
/// `FitOptions::keep_orientation`, which transposes whichever of these is asked for.
pub const RATIO_PRESETS: [(&'static str, (u32, u32)); 7] = [
    ("panel", (3, 2)),
    ("panel-portrait", (2, 3)),
    ("instagram-post", (1, 1)),
    ("instagram-portrait", (4, 5)),
    ("instagram-landscape", (191, 100)),
    ("instagram-story", (9, 16)),
    ("iphone", (4, 3)),
];

/// The first entry of [`RATIO_PRESETS`] whose name is `name`.
pub open spec fn preset_entry(name: Seq<char>) -> Option<int> {
    if exists|i: int| 0 <= i < 7 && RATIO_PRESETS[i].0@ == name {
        Some(choose|i: int| 0 <= i < 7 && RATIO_PRESETS[i].0@ == name && forall|j: int| 0 <= j < i ==> RATIO_PRESETS[j].0@ != name)
    } else {
        None
    }
}

/// The ratio a preset name stands for, or `None` when nothing goes by that name.
pub open spec fn spec_preset_ratio(name: Seq<char>) -> Option<(u32, u32)> {
    match preset_entry(name) {
        Some(i) => Some(RATIO_PRESETS[i].1),
        None => None,
    }
}

proof fn lemma_preset_entry_found(name: Seq<char>, at: int)
    requires
        0 <= at < 7,
        RATIO_PRESETS[at].0@ == name,
        forall|j: int| 0 <= j < at ==> RATIO_PRESETS[j].0@ != name,
    ensures
        preset_entry(name) == Some(at),
{
    let found = choose|i: int|
        0 <= i < 7 && RATIO_PRESETS[i].0@ == name && forall|j: int| 0 <= j < i ==> RATIO_PRESETS[j].0@ != name;
    assert(0 <= found < 7 && RATIO_PRESETS[found].0@ == name);
    if found < at {
        assert(RATIO_PRESETS[found].0@ != name);
    }
    if found > at {
        assert(RATIO_PRESETS[at].0@ != name);
    }
}

/// The aspect ratio a preset names, or `None` when nothing goes by that name.
pub fn preset_ratio(name: &str) -> (ratio: Option<(u32, u32)>)
    ensures
        ratio == spec_preset_ratio(name@),
{
    let table = RATIO_PRESETS;
    let mut i: usize = 0;
    while i < 7
        invariant
            0 <= i <= 7,
            table == RATIO_PRESETS,
            forall|j: int| 0 <= j < i ==> RATIO_PRESETS[j].0@ != name@,
        decreases 7 - i,
    {
        if str_eq(table[i].0, name) {
            proof {
                lemma_preset_entry_found(name@, i as int);
            }
            return Some(table[i].1);
        }
        i = i + 1;
    }
    None
}

/// The preset names, in the order [`RATIO_PRESETS`] lists them.
pub fn preset_names() -> (names: [&'static str; 7])
    ensures
        forall|i: int| 0 <= i < 7 ==> #[trigger] names[i]@ == RATIO_PRESETS[i].0@,
{
    let table = RATIO_PRESETS;
    [table[0].0, table[1].0, table[2].0, table[3].0, table[4].0, table[5].0, table[6].0]
}

/// Every name in the table is spelled differently, so a lookup is never ambiguous: each one finds its own entry, and
/// every ratio in the table has two non-zero sides.
pub proof fn lemma_every_preset_names_one_ratio(i: int)
    requires
        0 <= i < 7,
    ensures
        spec_preset_ratio(RATIO_PRESETS[i].0@) == Some(RATIO_PRESETS[i].1),
        RATIO_PRESETS[i].1.0 > 0,
        RATIO_PRESETS[i].1.1 > 0,
{
    reveal_strlit("panel");
    reveal_strlit("panel-portrait");
    reveal_strlit("instagram-post");
    reveal_strlit("instagram-portrait");
    reveal_strlit("instagram-landscape");
    reveal_strlit("instagram-story");
    reveal_strlit("iphone");
    assert forall|j: int| 0 <= j < i implies RATIO_PRESETS[j].0@ != RATIO_PRESETS[i].0@ by {
        let a = RATIO_PRESETS[j].0@;
        let b = RATIO_PRESETS[i].0@;
        if a.len() == b.len() {
            // Same length: "panel" against "iphone" is the only tie short of a different letter early on.
            assert(a[0] != b[0] || a[6] != b[6] || a[10] != b[10] || a[11] != b[11]);
        }
    }
    lemma_preset_entry_found(RATIO_PRESETS[i].0@, i);
}

/// The size to dither at: `size`, reshaped to `preset`'s ratio when one was named, or the photo's own `source` when no
/// size was.
pub open spec fn spec_working_size(source: (u32, u32), size: Option<(u32, u32)>, preset: Option<(u32, u32)>) -> (
    u32,
    u32,
) {
    match (size, preset) {
        (Some(size), Some(ratio)) => spec_ratio_size(size, ratio),
        (Some(size), None) => size,
        (None, Some(ratio)) => spec_ratio_inside(source, ratio),
        (None, None) => source,
    }
}

/// Turns "a size, a preset, or neither" into the pair to dither at.
///
/// A preset only ever picks the shape, so `size` still says how much gets dithered: it is fitted inside the pair,
/// which is turned over first when the ratio disagrees with it. With no `size` the photo's own dimensions stand in, and
/// those are never turned over, since a photo is already in its own orientation: a preset then cuts the largest
/// rectangle of its ratio actually in the photo. With neither, the photo keeps its own size, which is why nothing
/// resizes unless it is asked to.
pub fn working_size(source: (u32, u32), size: Option<(u32, u32)>, preset: Option<(u32, u32)>) -> (working: (
    u32,
    u32,
))
    ensures
        working == spec_working_size(source, size, preset),
{
    match (size, preset) {
        (Some(size), Some(ratio)) => ratio_size(size, ratio),
        (Some(size), None) => size,
        (None, Some(ratio)) => ratio_inside(source, ratio),
        (None, None) => source,
    }
}

/// An aspect ratio that goes by name, one for each entry of [`RATIO_PRESETS`].
#[derive(Debug, Clone, Copy, PartialEq, Eq, Structural)]
pub enum Preset {
    Panel,
    PanelPortrait,
    InstagramPost,
    InstagramPortrait,
    InstagramLandscape,
    InstagramStory,
    Iphone,
}

/// The entry of [`RATIO_PRESETS`] a preset stands for.
pub open spec fn preset_index(preset: Preset) -> int {
    match preset {
        Preset::Panel => 0,
        Preset::PanelPortrait => 1,
        Preset::InstagramPost => 2,
        Preset::InstagramPortrait => 3,
        Preset::InstagramLandscape => 4,
        Preset::InstagramStory => 5,
        Preset::Iphone => 6,
    }
}

impl Preset {
    /// Every preset, in the order [`RATIO_PRESETS`] lists them.
    pub const ALL: [Preset; 7] = [
        Preset::Panel,
        Preset::PanelPortrait,
        Preset::InstagramPost,
        Preset::InstagramPortrait,
        Preset::InstagramLandscape,
        Preset::InstagramStory,
        Preset::Iphone,
    ];

    /// The name this goes by, in both the query string and the pipeline's own table.
    pub fn name(self) -> (name: &'static str)
        ensures
            name@ == RATIO_PRESETS[preset_index(self)].0@,
    {
        let table = RATIO_PRESETS;
        match self {
            Preset::Panel => table[0].0,
            Preset::PanelPortrait => table[1].0,
            Preset::InstagramPost => table[2].0,
            Preset::InstagramPortrait => table[3].0,
            Preset::InstagramLandscape => table[4].0,
            Preset::InstagramStory => table[5].0,
            Preset::Iphone => table[6].0,
        }
    }

    /// The aspect ratio it names, as `width:height`, looked up in the pipeline's table by [`Preset::name`].
    pub fn ratio(self) -> (ratio: (u32, u32))
        ensures
            ratio == RATIO_PRESETS[preset_index(self)].1,
            ratio.0 > 0 && ratio.1 > 0,
    {
        proof {
            lemma_every_preset_names_one_ratio(preset_index(self));
        }
        preset_ratio(self.name()).unwrap()
    }

    /// The preset a name stands for, or `None` when nothing goes by that name.
    pub fn from_name(name: &str) -> (preset: Option<Preset>)
        ensures
            preset matches Some(p) ==> RATIO_PRESETS[preset_index(p)].0@ == name@,
            preset is None ==> spec_preset_ratio(name@) is None,
    {
        let mut i: usize = 0;
        while i < 7
            invariant
                0 <= i <= 7,
                forall|j: int| 0 <= j < i ==> RATIO_PRESETS[j].0@ != name@,
            decreases 7 - i,
        {
            let preset = Preset::ALL[i];
            assert(preset_index(preset) == i);
            if str_eq(preset.name(), name) {
                return Some(preset);
            }
            i = i + 1;
        }
        proof {
            assert(!(exists|i: int| 0 <= i < 7 && RATIO_PRESETS[i].0@ == name@));
        }
        None
    }
}

/// A preset never carries a working size past the bounds it was fitted inside: against a pair of sides between one
/// and `limit`, what a preset resolves to is between one and `limit` on both sides too.
pub proof fn lemma_preset_stays_within(bounds: (u32, u32), preset: Preset, limit: u32)
    requires
        1 <= bounds.0 <= limit,
        1 <= bounds.1 <= limit,
    ensures
        ({
            let (w, h) = spec_ratio_size(bounds, RATIO_PRESETS[preset_index(preset)].1);
            1 <= w <= limit && 1 <= h <= limit
        }),
{
    let ratio = RATIO_PRESETS[preset_index(preset)].1;
    lemma_every_preset_names_one_ratio(preset_index(preset));
    lemma_ratio_size_inside(bounds, ratio);
}

/// With no size named, a preset cuts its shape out of the photo as the photo stands: the working size is never larger
/// than the photo on either side, reaches its full width or its full height, and holds the preset's ratio to within
/// a pixel. So a landscape photo under a portrait preset gives a portrait size no taller than the photo.
pub proof fn lemma_preset_alone_stays_inside_the_photo(source: (u32, u32), ratio: (u32, u32))
    requires
        source.0 > 0,
        source.1 > 0,
        ratio.0 > 0,
        ratio.1 > 0,
    ensures
        ({
            let (w, h) = spec_working_size(source, None, Some(ratio));
            &&& 1 <= w <= source.0
            &&& 1 <= h <= source.1
            &&& w == source.0 || h == source.1
            &&& -max_side(ratio) <= w * ratio.1 - h * ratio.0 <= max_side(ratio)
        }),
{
    lemma_ratio_fit_inside(source.0, source.1, ratio);
}

} // verus!
