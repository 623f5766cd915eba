//! Palettes and the nearest-colour search.

use vstd::prelude::*;
use crate::color::{black, distance_euclidienne, squared_distance, white, Color};

verus! {

/// Position of the first smallest entry among the first `n` entries of `ds`.
pub open spec fn first_min_upto(ds: Seq<int>, n: int) -> int
    decreases n,
{
    if n <= 1 {
        0
    } else {
        let best = first_min_upto(ds, n - 1);
        if ds[n - 1] < ds[best] {
            n - 1
        } else {
            best
        }
    }
}

/// Position of the first smallest entry of `ds`.
pub open spec fn first_min(ds: Seq<int>) -> int {
    first_min_upto(ds, ds.len() as int)
}

/// `i` is the position of a smallest entry of `ds`, and every entry before
/// it is strictly larger.
pub open spec fn is_first_min(ds: Seq<int>, i: int) -> bool {
    &&& 0 <= i < ds.len()
    &&& forall|j: int| 0 <= j < ds.len() ==> ds[i] <= #[trigger] ds[j]
    &&& forall|j: int| 0 <= j < i ==> #[trigger] ds[j] > ds[i]
}

/// Among the first `n` entries, `first_min_upto` points at a smallest one
/// that no equal entry precedes.
pub proof fn lemma_first_min_upto(ds: Seq<int>, n: int)
    requires
        0 < n <= ds.len(),
    ensures
        0 <= first_min_upto(ds, n) < n,
        forall|j: int| 0 <= j < n ==> ds[first_min_upto(ds, n)] <= #[trigger] ds[j],
        forall|j: int|
            0 <= j < first_min_upto(ds, n) ==> #[trigger] ds[j] > ds[first_min_upto(ds, n)],
    decreases n,
{
    if n > 1 {
        lemma_first_min_upto(ds, n - 1);
    }
}

/// `first_min` points at a smallest entry, and at the first of them.
pub proof fn lemma_first_min(ds: Seq<int>)
    requires
        ds.len() > 0,
    ensures
        is_first_min(ds, first_min(ds)),
{
    lemma_first_min_upto(ds, ds.len() as int);
}

/// Only one position is the first minimum.
pub proof fn lemma_first_min_unique(ds: Seq<int>, i: int, k: int)
    requires
        is_first_min(ds, i),
        is_first_min(ds, k),
    ensures
        i == k,
{
    if i < k {
        assert(ds[i] > ds[k]);
    } else if k < i {
        assert(ds[k] > ds[i]);
    }
}

/// Distance from `c` to each entry of a palette, in palette order.
pub open spec fn color_distances(c: Color, palette: Seq<Color>) -> Seq<int> {
    Seq::new(palette.len(), |i: int| squared_distance(c, palette[i]))
}

/// Position in `palette` of the entry nearest to `c`; of several equally
/// near, the first.
pub open spec fn nearest_index(c: Color, palette: Seq<Color>) -> int {
    first_min(color_distances(c, palette))
}

/// The entry of `palette` nearest to `c`; of several equally near, the first.
pub open spec fn nearest_color(c: Color, palette: Seq<Color>) -> Color {
    palette[nearest_index(c, palette)]
}

/// The nearest entry is an entry of the palette, no further from `c` than any
/// other, and nearer than every entry before it.
pub proof fn lemma_nearest_in_palette(c: Color, palette: Seq<Color>)
    requires
        palette.len() > 0,
    ensures
        is_first_min(color_distances(c, palette), nearest_index(c, palette)),
        palette.contains(nearest_color(c, palette)),
{
    lemma_first_min(color_distances(c, palette));
}

/// The eight built-in colours: black, white, red, green, blue, yellow, cyan
/// and magenta, in this order.
pub open spec fn standard_colors() -> Seq<Color> {
    seq![
        Color { r: 0, g: 0, b: 0 },
        Color { r: 255, g: 255, b: 255 },
        Color { r: 255, g: 0, b: 0 },
        Color { r: 0, g: 255, b: 0 },
        Color { r: 0, g: 0, b: 255 },
        Color { r: 255, g: 255, b: 0 },
        Color { r: 0, g: 255, b: 255 },
        Color { r: 255, g: 0, b: 255 },
    ]
}

/// Why a palette could not be made.
#[derive(Clone, Copy, Debug, PartialEq, Eq, Structural)]
pub enum PaletteError {
    /// A palette holds at least one colour.
    Empty,
}

/// An ordered, non-empty list of colours.
pub struct Palette {
    pub(crate) colors: Vec<Color>,
}

impl View for Palette {
    type V = Seq<Color>;

    closed spec fn view(&self) -> Seq<Color> {
        self.colors@
    }
}

impl Palette {
    #[verifier::type_invariant]
    pub(crate) closed spec fn well_formed(&self) -> bool {
        self.colors@.len() > 0
    }

    /// A palette of the given colours, in their order. An empty list is
    /// rejected.
    pub fn new(colors: Vec<Color>) -> (r: Result<Palette, PaletteError>)
        ensures
            colors@.len() == 0 <==> r == Err::<Palette, PaletteError>(PaletteError::Empty),
            r matches Ok(p) ==> p@ == colors@,
    {
        if colors.len() == 0 {
            Err(PaletteError::Empty)
        } else {
            Ok(Palette { colors })
        }
    }

    /// The built-in palette of eight colours.
    pub fn standard() -> (p: Palette)
        ensures
            p@ == standard_colors(),
    {
        let mut colors: Vec<Color> = Vec::new();
        colors.push(Color { r: 0, g: 0, b: 0 });
        colors.push(Color { r: 255, g: 255, b: 255 });
        colors.push(Color { r: 255, g: 0, b: 0 });
        colors.push(Color { r: 0, g: 255, b: 0 });
        colors.push(Color { r: 0, g: 0, b: 255 });
        colors.push(Color { r: 255, g: 255, b: 0 });
        colors.push(Color { r: 0, g: 255, b: 255 });
        colors.push(Color { r: 255, g: 0, b: 255 });
        assert(colors@ =~= standard_colors());
        Palette { colors }
    }

    /// The palette of black and white, in this order.
    pub fn black_and_white() -> (p: Palette)
        ensures
            p@ == seq![black(), white()],
    {
        let mut colors: Vec<Color> = Vec::new();
        colors.push(Color::black());
        colors.push(Color::white());
        assert(colors@ =~= seq![black(), white()]);
        Palette { colors }
    }

    /// Number of colours, which is never zero.
    pub fn len(&self) -> (n: usize)
        ensures
            n == self@.len(),
            n > 0,
    {
        proof {
            use_type_invariant(self);
        }
        self.colors.len()
    }

    /// The colour at position `i`.
    pub(crate) fn entry(&self, i: usize) -> (c: Color)
        requires
            i < self@.len(),
        ensures
            c == self@[i as int],
    {
        self.colors[i]
    }

    /// The colour at position `i`, or `None` past the end.
    pub fn get(&self, i: usize) -> (c: Option<Color>)
        ensures
            c == if i < self@.len() {
                Some(self@[i as int])
            } else {
                None
            },
    {
        if i < self.colors.len() {
            Some(self.colors[i])
        } else {
            None
        }
    }

    /// The palette of the first `n` colours of this one; of all of them when
    /// `n` exceeds their number. A request for no colour at all is rejected.
    pub fn first(&self, n: usize) -> (r: Result<Palette, PaletteError>)
        ensures
            n == 0 <==> r == Err::<Palette, PaletteError>(PaletteError::Empty),
            r matches Ok(p) ==> p@ == self@.take(if n <= self@.len() {
                n as int
            } else {
                self@.len() as int
            }),
    {
        if n == 0 {
            return Err(PaletteError::Empty);
        }
        let total = self.len();
        let kept = if n <= total {
            n
        } else {
            total
        };
        let mut colors: Vec<Color> = Vec::new();
        let mut i: usize = 0;
        while i < kept
            invariant
                i <= kept <= self.colors@.len(),
                colors@ == self.colors@.take(i as int),
            decreases kept - i,
        {
            colors.push(self.colors[i]);
            assert(self.colors@.take(i + 1) =~= self.colors@.take(i as int).push(
                self.colors@[i as int],
            ));
            i += 1;
        }
        Ok(Palette { colors })
    }
}

/// The colour of `palette` nearest to `c` under the colour metric; of
/// several equally near, the one that comes first in the palette.
pub fn plus_proche_couleur(c: Color, palette: &Palette) -> (nearest: Color)
    ensures
        nearest == nearest_color(c, palette@),
        is_first_min(color_distances(c, palette@), nearest_index(c, palette@)),
        palette@.contains(nearest),
{
    let n = palette.len();
    let ghost ds = color_distances(c, palette@);
    let mut best: usize = 0;
    let mut best_distance: u32 = distance_euclidienne(c, palette.colors[0]);
    let mut i: usize = 1;
    while i < n
        invariant
            n == palette.colors@.len(),
            ds == color_distances(c, palette@),
            1 <= i <= n,
            best == first_min_upto(ds, i as int),
            best < i,
            best_distance == ds[best as int],
        decreases n - i,
    {
        let d = distance_euclidienne(c, palette.colors[i]);
        if d < best_distance {
            best = i;
            best_distance = d;
        }
        i += 1;
    }
    proof {
        lemma_first_min(ds);
    }
    palette.colors[best]
}

} // verus!
