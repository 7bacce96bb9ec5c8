//! The fixed palette everything is reduced to, and the nearest-colour search over it in RGB.
//!
//! Six colours, each blended between a pure primary and a muted version of it. The slots are ordered black, white,
//! yellow, red, blue, green rather than following the primaries' own order, so slot 0 and slot 1 are the two extremes
//! a nearest-colour search falls back on.

use vstd::prelude::*;

verus! {

/// Number of colours in the palette.
pub const PALETTE_COLORS: usize = 6;

/// The pure primaries, fully saturated: black, white, green, blue, red, yellow.
pub const PURE_PALETTE: [[u8; 3]; 6] = [[0, 0, 0], [255, 255, 255], [0, 255, 0], [0, 0, 255], [255, 0, 0], [255, 255, 0]];

/// The muted counterparts, which is what those primaries look like on ink.
pub const MUTED_PALETTE: [[u8; 3]; 6] = [
    [57, 48, 57],
    [255, 255, 255],
    [40, 91, 58],
    [0, 128, 255],
    [156, 72, 75],
    [208, 190, 71],
];

/// Maps each output palette slot to its source primary.
pub const PALETTE_ORDER: [usize; 6] = [0, 1, 5, 4, 3, 2];

/// Squared RGB distance between two colours.
pub open spec fn rgb_distance(a: [u8; 3], b: [u8; 3]) -> int {
    (a[0] - b[0]) * (a[0] - b[0]) + (a[1] - b[1]) * (a[1] - b[1]) + (a[2] - b[2]) * (a[2] - b[2])
}

/// Whether `slot` is the first of `colors` at the least squared distance from `rgb`.
pub open spec fn is_first_nearest(colors: Seq<[u8; 3]>, rgb: [u8; 3], slot: int) -> bool {
    &&& 0 <= slot < colors.len()
    &&& forall|j: int| 0 <= j < colors.len() ==> rgb_distance(rgb, colors[slot]) <= rgb_distance(rgb, #[trigger] colors[j])
    &&& forall|j: int| 0 <= j < slot ==> rgb_distance(rgb, colors[slot]) < rgb_distance(rgb, #[trigger] colors[j])
}

/// Whether `values[j]` comes straight after `values[i]` when the values are sorted: it is larger, and nothing lies
/// strictly between the two.
pub open spec fn successive(values: Seq<u8>, i: int, j: int) -> bool {
    &&& 0 <= i < values.len()
    &&& 0 <= j < values.len()
    &&& values[i] < values[j]
    &&& forall|k: int| 0 <= k < values.len() ==> !(values[i] < #[trigger] values[k] < values[j])
}

/// Whether `gap` is the widest step between successive values in sorted order: no step is wider, and unless the
/// values are all equal, some step is exactly that wide.
pub open spec fn is_widest_gap(values: Seq<u8>, gap: int) -> bool {
    &&& 0 <= gap
    &&& forall|i: int, j: int| #[trigger] successive(values, i, j) ==> values[j] - values[i] <= gap
    &&& gap == 0 || exists|i: int, j: int| #[trigger] successive(values, i, j) && values[j] - values[i] == gap
}

/// One channel of every colour, slot by slot.
pub open spec fn channel_of(colors: Seq<[u8; 3]>, channel: int) -> Seq<u8> {
    Seq::new(colors.len(), |slot: int| colors[slot][channel])
}

/// The widest step between successive values of `values` in sorted order, or zero when they are all equal.
fn widest_gap(values: &[u8]) -> (gap: u8)
    ensures
        is_widest_gap(values@, gap as int),
{
    let n = values.len();
    let mut gap: u8 = 0;
    let mut i: usize = 0;
    while i < n
        invariant
            i <= n,
            n == values@.len(),
            forall|a: int, b: int| #[trigger] successive(values@, a, b) && a < i ==> values@[b] - values@[a] <= gap,
            gap == 0 || exists|a: int, b: int| #[trigger] successive(values@, a, b) && values@[b] - values@[a] == gap,
        decreases n - i,
    {
        let v = values[i];
        // The smallest value above `v`, found at `at`, if there is one.
        let mut next: u16 = 256;
        let mut at: usize = 0;
        let mut k: usize = 0;
        while k < n
            invariant
                k <= n,
                n == values@.len(),
                i < n,
                v == values@[i as int],
                next <= 256,
                next < 256 ==> at < n && values@[at as int] == next && next > v,
                forall|m: int| 0 <= m < k && values@[m] > v ==> values@[m] >= next,
            decreases n - k,
        {
            if values[k] > v && (values[k] as u16) < next {
                next = values[k] as u16;
                at = k;
            }
            k = k + 1;
        }
        if next < 256 {
            proof {
                assert(successive(values@, i as int, at as int));
            }
            let step = (next - v as u16) as u8;
            if step > gap {
                gap = step;
            }
        }
        proof {
            assert forall|a: int, b: int| #[trigger] successive(values@, a, b) && a < i + 1 implies values@[b]
                - values@[a] <= gap by {
                if a == i {
                    // `values[b]` is the smallest value above `v`, which is what `next` found.
                    assert(values@[b] > v);
                    assert(next <= values@[b]);
                    assert(next < 256);
                    assert(!(values@[a] < values@[at as int] < values@[b]));
                }
            }
        }
        i = i + 1;
    }
    gap
}

/// A palette's `PLTE` bytes: the colours' channels in slot order, padded with zeros to 256 entries.
pub open spec fn plte_bytes(colors: Seq<[u8; 3]>) -> Seq<u8> {
    Seq::new(768, |i: int| if i < 18 { colors[i / 3][i % 3] } else { 0u8 })
}

/// The blended palette a dither quantises to.
#[derive(Debug, Clone, Copy, PartialEq, Eq)]
pub struct Palette {
    colors: [[u8; 3]; 6],
}

impl Palette {
    /// The colours, one per slot.
    pub closed spec fn spec_colors(&self) -> Seq<[u8; 3]> {
        self.colors@
    }

    /// A palette of the given colours, slot by slot.
    pub fn from_colors(colors: [[u8; 3]; 6]) -> (palette: Palette)
        ensures
            palette.spec_colors() == colors@,
    {
        Palette { colors }
    }

    /// The colours, one per slot.
    pub fn colors(&self) -> (colors: &[[u8; 3]; 6])
        ensures
            colors@ == self.spec_colors(),
    {
        &self.colors
    }

    /// The slot closest to an arbitrary colour, by squared RGB distance. Ties go to the lower slot.
    ///
    /// Error diffusion wants this rather than CIELAB. CIELAB weights lightness heavily, so on a palette this small it
    /// pulls midtones toward white and black and visibly drains the colour out of the result. Diffusing the error
    /// afterwards is what recovers the intermediate tones, and that works best when the match minimises the error the
    /// diffusion has to carry.
    pub fn nearest_rgb(&self, rgb: [u8; 3]) -> (slot: usize)
        ensures
            is_first_nearest(self.spec_colors(), rgb, slot as int),
    {
        let mut best: usize = 0;
        let mut best_dist: i32 = i32::MAX;
        let mut slot: usize = 0;
        while slot < 6
            invariant
                0 <= slot <= 6,
                self.colors@.len() == 6,
                slot == 0 ==> best_dist == i32::MAX,
                slot > 0 ==> best < slot && best_dist == rgb_distance(rgb, self.colors@[best as int]),
                forall|j: int| 0 <= j < slot ==> best_dist <= rgb_distance(rgb, #[trigger] self.colors@[j]),
                forall|j: int| 0 <= j < best ==> best_dist < rgb_distance(rgb, #[trigger] self.colors@[j]),
            decreases 6 - slot,
        {
            let entry = self.colors[slot];
            let d0 = rgb[0] as i32 - entry[0] as i32;
            let d1 = rgb[1] as i32 - entry[1] as i32;
            let d2 = rgb[2] as i32 - entry[2] as i32;
            assert(0 <= d0 * d0 <= 65025 && 0 <= d1 * d1 <= 65025 && 0 <= d2 * d2 <= 65025) by (nonlinear_arith)
                requires
                    -255 <= d0 <= 255,
                    -255 <= d1 <= 255,
                    -255 <= d2 <= 255,
            ;
            let dist = d0 * d0 + d1 * d1 + d2 * d2;
            assert(dist == rgb_distance(rgb, self.colors@[slot as int]));
            if dist < best_dist {
                best_dist = dist;
                best = slot;
            }
            slot = slot + 1;
        }
        best
    }

    /// Per channel, the widest step between successive palette values in sorted order: the amplitude an ordered
    /// dither needs for its thresholds to reach from any palette value to the next.
    pub fn widest_gaps(&self) -> (gaps: [u8; 3])
        ensures
            forall|channel: int| 0 <= channel < 3 ==> is_widest_gap(
                channel_of(self.spec_colors(), channel),
                #[trigger] gaps[channel] as int,
            ),
    {
        let mut gaps = [0u8; 3];
        let mut channel: usize = 0;
        while channel < 3
            invariant
                channel <= 3,
                self.colors@.len() == 6,
                forall|c: int| 0 <= c < channel ==> is_widest_gap(
                    channel_of(self.colors@, c),
                    #[trigger] gaps[c] as int,
                ),
            decreases 3 - channel,
        {
            let values = [
                self.colors[0][channel],
                self.colors[1][channel],
                self.colors[2][channel],
                self.colors[3][channel],
                self.colors[4][channel],
                self.colors[5][channel],
            ];
            assert(values@ =~= channel_of(self.colors@, channel as int));
            gaps[channel] = widest_gap(&values);
            channel = channel + 1;
        }
        gaps
    }

    /// The palette flattened for a PNG `PLTE` chunk: the colours' bytes in slot order, padded with zeros to 256
    /// entries.
    pub fn plte(&self) -> (flat: Vec<u8>)
        ensures
            flat@ == plte_bytes(self.spec_colors()),
    {
        let mut flat: Vec<u8> = Vec::new();
        let mut i: usize = 0;
        while i < 768
            invariant
                i <= 768,
                flat@.len() == i,
                self.colors@.len() == 6,
                forall|j: int| 0 <= j < i && j < 18 ==> #[trigger] flat@[j] == self.colors@[j / 3][j % 3],
                forall|j: int| 18 <= j < i ==> #[trigger] flat@[j] == 0,
            decreases 768 - i,
        {
            if i < 18 {
                flat.push(self.colors[i / 3][i % 3]);
            } else {
                flat.push(0);
            }
            i = i + 1;
        }
        assert(flat@ =~= plte_bytes(self.spec_colors()));
        flat
    }
}

} // verus!
