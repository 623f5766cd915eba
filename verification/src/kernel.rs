//! Diffusion kernels: where the quantisation error of a pixel goes, and how
//! much of it.

use vstd::prelude::*;
use crate::text::same_text;

verus! {

/// One destination of a kernel: the pixel `dx` columns to the right and `dy`
/// rows below receives `weight` parts of the error, out of the kernel's
/// denominator.
#[derive(Clone, Copy, Debug, PartialEq, Eq, Structural)]
pub struct Tap {
    pub dx: i32,
    pub dy: i32,
    pub weight: u32,
}

/// What a kernel is: its taps in order, and the denominator of their weights.
pub struct KernelView {
    pub taps: Seq<Tap>,
    pub denominator: nat,
}

/// The most taps a kernel may have.
pub const MAX_TAPS: usize = 32;

/// Why a kernel could not be made.
#[derive(Clone, Copy, Debug, PartialEq, Eq, Structural)]
pub enum KernelError {
    /// The weights are fractions of a denominator, which cannot be zero.
    ZeroDenominator,
    /// More than `MAX_TAPS` taps.
    TooManyTaps,
}

/// A diffusion kernel: at most `MAX_TAPS` taps over a positive denominator.
pub struct Kernel {
    pub(crate) taps: Vec<Tap>,
    pub(crate) denominator: u32,
}

impl View for Kernel {
    type V = KernelView;

    closed spec fn view(&self) -> KernelView {
        KernelView { taps: self.taps@, denominator: self.denominator as nat }
    }
}

/// Half of the error to the right, half of it below.
pub open spec fn halves() -> KernelView {
    KernelView {
        taps: seq![Tap { dx: 1, dy: 0, weight: 1 }, Tap { dx: 0, dy: 1, weight: 1 }],
        denominator: 2,
    }
}

/// The kernel of Floyd and Steinberg: 7/16 to the right, then 3/16, 5/16 and
/// 1/16 below left, below and below right.
pub open spec fn floyd_steinberg() -> KernelView {
    KernelView {
        taps: seq![
            Tap { dx: 1, dy: 0, weight: 7 },
            Tap { dx: (-1) as i32, dy: 1, weight: 3 },
            Tap { dx: 0, dy: 1, weight: 5 },
            Tap { dx: 1, dy: 1, weight: 1 },
        ],
        denominator: 16,
    }
}

/// The kernel of Jarvis, Judice and Ninke: twelve taps over two rows ahead
/// and two columns either side, in forty-eighths.
pub open spec fn jarvis() -> KernelView {
    KernelView {
        taps: seq![
            Tap { dx: 1, dy: 0, weight: 7 },
            Tap { dx: 2, dy: 0, weight: 5 },
            Tap { dx: (-2) as i32, dy: 1, weight: 3 },
            Tap { dx: (-1) as i32, dy: 1, weight: 5 },
            Tap { dx: 0, dy: 1, weight: 7 },
            Tap { dx: 1, dy: 1, weight: 5 },
            Tap { dx: 2, dy: 1, weight: 3 },
            Tap { dx: (-2) as i32, dy: 2, weight: 1 },
            Tap { dx: (-1) as i32, dy: 2, weight: 3 },
            Tap { dx: 0, dy: 2, weight: 5 },
            Tap { dx: 1, dy: 2, weight: 3 },
            Tap { dx: 2, dy: 2, weight: 1 },
        ],
        denominator: 48,
    }
}

/// The kernel of Atkinson: six taps of one eighth each, so that a quarter of
/// the error is dropped on purpose.
pub open spec fn atkinson() -> KernelView {
    KernelView {
        taps: seq![
            Tap { dx: 1, dy: 0, weight: 1 },
            Tap { dx: 2, dy: 0, weight: 1 },
            Tap { dx: (-1) as i32, dy: 1, weight: 1 },
            Tap { dx: 0, dy: 1, weight: 1 },
            Tap { dx: 1, dy: 1, weight: 1 },
            Tap { dx: 0, dy: 2, weight: 1 },
        ],
        denominator: 8,
    }
}

impl KernelView {
    /// Whether every tap points forward in scan order: to a later row, or
    /// further right in the same row.
    pub open spec fn points_forward(self) -> bool {
        forall|i: int|
            0 <= i < self.taps.len() ==> {
                let t = #[trigger] self.taps[i];
                t.dy > 0 || (t.dy == 0 && t.dx > 0)
            }
    }
}

/// The built-in kernels point forward.
pub proof fn lemma_built_in_kernels_point_forward()
    ensures
        halves().points_forward(),
        floyd_steinberg().points_forward(),
        jarvis().points_forward(),
        atkinson().points_forward(),
{
}

/// The kernels that can be chosen by name.
#[derive(Clone, Copy, Debug, PartialEq, Eq, Structural)]
pub enum KernelName {
    Floyd,
    Jarvis,
    Atkinson,
}

/// The kernel that a text names: `jarvis` and `atkinson` name theirs, and
/// any other text names the kernel of Floyd and Steinberg.
pub open spec fn name_of(text: Seq<char>) -> KernelName {
    if text == "jarvis"@ {
        KernelName::Jarvis
    } else if text == "atkinson"@ {
        KernelName::Atkinson
    } else {
        KernelName::Floyd
    }
}

/// The kernel of a name.
pub open spec fn kernel_named(name: KernelName) -> KernelView {
    match name {
        KernelName::Floyd => floyd_steinberg(),
        KernelName::Jarvis => jarvis(),
        KernelName::Atkinson => atkinson(),
    }
}

/// The sum of the weights of the first `n` taps.
pub open spec fn total_weight(taps: Seq<Tap>, n: int) -> int
    decreases n,
{
    if n <= 0 {
        0
    } else {
        total_weight(taps, n - 1) + taps[n - 1].weight
    }
}

/// The weights of the built-in kernels add up to the whole error, but for
/// the kernel of Atkinson, which passes on three quarters of it.
pub proof fn lemma_built_in_total_weights()
    ensures
        total_weight(halves().taps, 2) == halves().denominator,
        total_weight(floyd_steinberg().taps, 4) == floyd_steinberg().denominator,
        total_weight(jarvis().taps, 12) == jarvis().denominator,
        4 * total_weight(atkinson().taps, 6) == 3 * atkinson().denominator,
{
    reveal_with_fuel(total_weight, 13);
}

/// The part of an error `e` that goes through a tap: `e * weight / den`,
/// rounded toward zero.
pub open spec fn share(e: int, weight: int, den: int) -> int {
    if e >= 0 {
        (e * weight) / den
    } else {
        -(((-e) * weight) / den)
    }
}

/// A share is the exact fraction of the error, short of less than one unit,
/// and never on the other side of zero.
pub proof fn lemma_share(e: int, weight: int, den: int)
    requires
        0 <= weight,
        0 < den,
    ensures
        e >= 0 ==> e * weight - den < den * share(e, weight, den) <= e * weight,
        e <= 0 ==> e * weight <= den * share(e, weight, den) < e * weight + den,
        e >= 0 ==> 0 <= share(e, weight, den) <= e * weight,
        e <= 0 ==> e * weight <= share(e, weight, den) <= 0,
        (e * weight) % den == 0 ==> den * share(e, weight, den) == e * weight,
        share(-e, weight, den) == -share(e, weight, den),
{
    let a = if e >= 0 {
        e * weight
    } else {
        (-e) * weight
    };
    assert(a >= 0) by (nonlinear_arith)
        requires
            a == if e >= 0 {
                e * weight
            } else {
                (-e) * weight
            },
            weight >= 0,
    ;
    assert((-e) * weight == -(e * weight)) by (nonlinear_arith);
    vstd::arithmetic::div_mod::lemma_fundamental_div_mod(a, den);
    vstd::arithmetic::div_mod::lemma_mod_pos_bound(a, den);
    let q = a / den;
    assert(0 <= q <= a) by (nonlinear_arith)
        requires
            a == den * q + a % den,
            0 <= a % den < den,
            0 < den,
            0 <= a,
    ;
    assert(den * (-q) == -(den * q)) by (nonlinear_arith);
    if (e * weight) % den == 0 {
        if e < 0 {
            vstd::arithmetic::div_mod::lemma_fundamental_div_mod(e * weight, den);
            let p = (e * weight) / den;
            assert(a == den * (-p)) by (nonlinear_arith)
                requires
                    e * weight == den * p,
                    a == -(e * weight),
            ;
            vstd::arithmetic::div_mod::lemma_fundamental_div_mod_converse(a, den, -p, 0);
        }
    }
    if e == 0 {
        assert(0 * weight == 0) by (nonlinear_arith);
    }
}

/// What the cell `(cx, cy)` gets of the error `e` of the pixel `(x, y)`
/// through the first `n` taps of a kernel.
pub open spec fn deposit(k: KernelView, x: int, y: int, e: int, cx: int, cy: int, n: int) -> int
    decreases n,
{
    if n <= 0 {
        0
    } else {
        let t = k.taps[n - 1];
        deposit(k, x, y, e, cx, cy, n - 1) + if x + t.dx == cx && y + t.dy == cy {
            share(e, t.weight as int, k.denominator as int)
        } else {
            0
        }
    }
}

/// How much of the error `e` of the pixel `(x, y)` stays in a raster of the
/// given size, through the first `n` taps of a kernel: the shares of the
/// taps that point inside it.
pub open spec fn distributed(
    k: KernelView,
    width: int,
    height: int,
    x: int,
    y: int,
    e: int,
    n: int,
) -> int
    decreases n,
{
    if n <= 0 {
        0
    } else {
        let t = k.taps[n - 1];
        distributed(k, width, height, x, y, e, n - 1) + if 0 <= x + t.dx < width && 0 <= y + t.dy
            < height {
            share(e, t.weight as int, k.denominator as int)
        } else {
            0
        }
    }
}

/// What the kernel of Floyd and Steinberg deposits in a cell: the share of
/// each of its four taps that leads there.
proof fn lemma_floyd_steinberg_deposit(x: int, y: int, e: int, cx: int, cy: int)
    ensures
        deposit(floyd_steinberg(), x, y, e, cx, cy, 4) == (if cx == x + 1 && cy == y {
            share(e, 7, 16)
        } else {
            0
        }) + (if cx == x - 1 && cy == y + 1 {
            share(e, 3, 16)
        } else {
            0
        }) + (if cx == x && cy == y + 1 {
            share(e, 5, 16)
        } else {
            0
        }) + (if cx == x + 1 && cy == y + 1 {
            share(e, 1, 16)
        } else {
            0
        }),
{
    let k = floyd_steinberg();
    assert(k.taps[0] == Tap { dx: 1, dy: 0, weight: 7 });
    assert(k.taps[1] == Tap { dx: (-1) as i32, dy: 1, weight: 3 });
    assert(k.taps[2] == Tap { dx: 0, dy: 1, weight: 5 });
    assert(k.taps[3] == Tap { dx: 1, dy: 1, weight: 1 });
    assert(deposit(k, x, y, e, cx, cy, 0) == 0);
    assert(deposit(k, x, y, e, cx, cy, 1) == deposit(k, x, y, e, cx, cy, 0) + (if cx == x + 1
        && cy == y {
        share(e, 7, 16)
    } else {
        0
    }));
    assert(deposit(k, x, y, e, cx, cy, 2) == deposit(k, x, y, e, cx, cy, 1) + (if cx == x - 1
        && cy == y + 1 {
        share(e, 3, 16)
    } else {
        0
    }));
    assert(deposit(k, x, y, e, cx, cy, 3) == deposit(k, x, y, e, cx, cy, 2) + (if cx == x && cy
        == y + 1 {
        share(e, 5, 16)
    } else {
        0
    }));
    assert(deposit(k, x, y, e, cx, cy, 4) == deposit(k, x, y, e, cx, cy, 3) + (if cx == x + 1
        && cy == y + 1 {
        share(e, 1, 16)
    } else {
        0
    }));
}

/// What the kernel of Floyd and Steinberg leaves in the raster of the error
/// of a pixel: the share of each of its four taps that points inside.
proof fn lemma_floyd_steinberg_distributed(width: int, height: int, x: int, y: int, e: int)
    requires
        0 <= x < width,
        0 <= y < height,
    ensures
        distributed(floyd_steinberg(), width, height, x, y, e, 4) == (if x + 1 < width {
            share(e, 7, 16)
        } else {
            0
        }) + (if 1 <= x && y + 1 < height {
            share(e, 3, 16)
        } else {
            0
        }) + (if y + 1 < height {
            share(e, 5, 16)
        } else {
            0
        }) + (if x + 1 < width && y + 1 < height {
            share(e, 1, 16)
        } else {
            0
        }),
{
    let k = floyd_steinberg();
    assert(k.taps[0] == Tap { dx: 1, dy: 0, weight: 7 });
    assert(k.taps[1] == Tap { dx: (-1) as i32, dy: 1, weight: 3 });
    assert(k.taps[2] == Tap { dx: 0, dy: 1, weight: 5 });
    assert(k.taps[3] == Tap { dx: 1, dy: 1, weight: 1 });
    assert(distributed(k, width, height, x, y, e, 0) == 0);
    assert(distributed(k, width, height, x, y, e, 1) == distributed(k, width, height, x, y, e, 0)
        + (if x + 1 < width {
        share(e, 7, 16)
    } else {
        0
    }));
    assert(distributed(k, width, height, x, y, e, 2) == distributed(k, width, height, x, y, e, 1)
        + (if 1 <= x && y + 1 < height {
        share(e, 3, 16)
    } else {
        0
    }));
    assert(distributed(k, width, height, x, y, e, 3) == distributed(k, width, height, x, y, e, 2)
        + (if y + 1 < height {
        share(e, 5, 16)
    } else {
        0
    }));
    assert(distributed(k, width, height, x, y, e, 4) == distributed(k, width, height, x, y, e, 3)
        + (if x + 1 < width && y + 1 < height {
        share(e, 1, 16)
    } else {
        0
    }));
}

/// The four shares of Floyd and Steinberg: each is the exact fraction of the
/// error, short of less than one unit, and exact where sixteen divides the
/// error.
proof fn lemma_floyd_steinberg_shares(e: int)
    ensures
        e >= 0 ==> 7 * e - 16 < 16 * share(e, 7, 16) <= 7 * e,
        e >= 0 ==> 3 * e - 16 < 16 * share(e, 3, 16) <= 3 * e,
        e >= 0 ==> 5 * e - 16 < 16 * share(e, 5, 16) <= 5 * e,
        e >= 0 ==> e - 16 < 16 * share(e, 1, 16) <= e,
        e <= 0 ==> 7 * e <= 16 * share(e, 7, 16) < 7 * e + 16,
        e <= 0 ==> 3 * e <= 16 * share(e, 3, 16) < 3 * e + 16,
        e <= 0 ==> 5 * e <= 16 * share(e, 5, 16) < 5 * e + 16,
        e <= 0 ==> e <= 16 * share(e, 1, 16) < e + 16,
        e % 16 == 0 ==> 16 * share(e, 7, 16) == 7 * e,
        e % 16 == 0 ==> 16 * share(e, 3, 16) == 3 * e,
        e % 16 == 0 ==> 16 * share(e, 5, 16) == 5 * e,
        e % 16 == 0 ==> 16 * share(e, 1, 16) == e,
{
    lemma_share(e, 7, 16);
    lemma_share(e, 3, 16);
    lemma_share(e, 5, 16);
    lemma_share(e, 1, 16);
    if e % 16 == 0 {
        assert((e * 7) % 16 == 0 && (e * 3) % 16 == 0 && (e * 5) % 16 == 0 && (e * 1) % 16 == 0);
    }
}

/// Conservation under Floyd and Steinberg. Around a pixel that has a
/// neighbour on each side and a row below, the four neighbours get the
/// shares 7/16, 3/16, 5/16 and 1/16 of its error, each short of less than one
/// unit and exact where sixteen divides the error; together they get the
/// whole error, short of at most three units and exact where sixteen divides
/// it.
pub proof fn lemma_floyd_steinberg_conservation(width: int, height: int, x: int, y: int, e: int)
    requires
        1 <= x,
        x + 1 < width,
        0 <= y,
        y + 1 < height,
    ensures
        deposit(floyd_steinberg(), x, y, e, x + 1, y, 4) == share(e, 7, 16),
        deposit(floyd_steinberg(), x, y, e, x - 1, y + 1, 4) == share(e, 3, 16),
        deposit(floyd_steinberg(), x, y, e, x, y + 1, 4) == share(e, 5, 16),
        deposit(floyd_steinberg(), x, y, e, x + 1, y + 1, 4) == share(e, 1, 16),
        distributed(floyd_steinberg(), width, height, x, y, e, 4) == share(e, 7, 16) + share(
            e,
            3,
            16,
        ) + share(e, 5, 16) + share(e, 1, 16),
        e >= 0 ==> e - 3 <= distributed(floyd_steinberg(), width, height, x, y, e, 4) <= e,
        e <= 0 ==> e <= distributed(floyd_steinberg(), width, height, x, y, e, 4) <= e + 3,
        e % 16 == 0 ==> {
            &&& 16 * share(e, 7, 16) == 7 * e
            &&& 16 * share(e, 3, 16) == 3 * e
            &&& 16 * share(e, 5, 16) == 5 * e
            &&& 16 * share(e, 1, 16) == e
            &&& distributed(floyd_steinberg(), width, height, x, y, e, 4) == e
        },
{
    lemma_floyd_steinberg_deposit(x, y, e, x + 1, y);
    lemma_floyd_steinberg_deposit(x, y, e, x - 1, y + 1);
    lemma_floyd_steinberg_deposit(x, y, e, x, y + 1);
    lemma_floyd_steinberg_deposit(x, y, e, x + 1, y + 1);
    lemma_floyd_steinberg_distributed(width, height, x, y, e);
    lemma_floyd_steinberg_shares(e);
}

/// Loss at the border under Floyd and Steinberg. In the last column the two
/// taps that point one column to the right reach no pixel, and in the last
/// row the three taps that point one row down reach none: what they carry is
/// dropped, so that less than the whole error is passed on.
pub proof fn lemma_floyd_steinberg_boundary_loss(width: int, height: int, x: int, y: int, e: int)
    requires
        0 <= x < width,
        0 <= y < height,
        x == width - 1 || y == height - 1,
    ensures
        x == width - 1 ==> forall|cx: int, cy: int|
            0 <= cx < width && 0 <= cy < height ==> #[trigger] deposit(
                floyd_steinberg(),
                x,
                y,
                e,
                cx,
                cy,
                4,
            ) == if cx == x - 1 && cy == y + 1 {
                share(e, 3, 16)
            } else if cx == x && cy == y + 1 {
                share(e, 5, 16)
            } else {
                0
            },
        x == width - 1 ==> distributed(floyd_steinberg(), width, height, x, y, e, 4) == if y + 1
            < height {
            share(e, 5, 16) + if x >= 1 {
                share(e, 3, 16)
            } else {
                0
            }
        } else {
            0
        },
        y == height - 1 ==> distributed(floyd_steinberg(), width, height, x, y, e, 4) == if x + 1
            < width {
            share(e, 7, 16)
        } else {
            0
        },
        e > 0 ==> 0 <= distributed(floyd_steinberg(), width, height, x, y, e, 4) < e,
        e < 0 ==> e < distributed(floyd_steinberg(), width, height, x, y, e, 4) <= 0,
{
    lemma_floyd_steinberg_distributed(width, height, x, y, e);
    lemma_floyd_steinberg_shares(e);
    if x == width - 1 {
        assert forall|cx: int, cy: int|
            0 <= cx < width && 0 <= cy < height implies #[trigger] deposit(
            floyd_steinberg(),
            x,
            y,
            e,
            cx,
            cy,
            4,
        ) == if cx == x - 1 && cy == y + 1 {
            share(e, 3, 16)
        } else if cx == x && cy == y + 1 {
            share(e, 5, 16)
        } else {
            0
        } by {
            lemma_floyd_steinberg_deposit(x, y, e, cx, cy);
        }
    }
}

/// No kernel passes on more than its weights allow: what stays in the raster
/// is between zero and the error times the sum of the weights, over the
/// denominator.
pub proof fn lemma_distributed_bound(
    k: KernelView,
    width: int,
    height: int,
    x: int,
    y: int,
    e: int,
    n: int,
)
    requires
        0 <= n <= k.taps.len(),
        k.denominator > 0,
    ensures
        e >= 0 ==> 0 <= k.denominator * distributed(k, width, height, x, y, e, n) <= e
            * total_weight(k.taps, n),
        e <= 0 ==> e * total_weight(k.taps, n) <= k.denominator * distributed(
            k,
            width,
            height,
            x,
            y,
            e,
            n,
        ) <= 0,
    decreases n,
{
    if n > 0 {
        lemma_distributed_bound(k, width, height, x, y, e, n - 1);
        let t = k.taps[n - 1];
        let den = k.denominator as int;
        let s = share(e, t.weight as int, den);
        let before = distributed(k, width, height, x, y, e, n - 1);
        let tw = total_weight(k.taps, n - 1);
        lemma_share(e, t.weight as int, den);
        assert(den * (before + s) == den * before + den * s) by (nonlinear_arith);
        assert(e * (tw + t.weight) == e * tw + e * t.weight) by (nonlinear_arith);
        if e >= 0 {
            assert(e * t.weight >= 0 && den * s >= 0) by (nonlinear_arith)
                requires
                    e >= 0,
                    t.weight >= 0,
                    s >= 0,
                    den > 0,
            ;
        } else {
            assert(e * t.weight <= 0 && den * s <= 0) by (nonlinear_arith)
                requires
                    e <= 0,
                    t.weight >= 0,
                    s <= 0,
                    den > 0,
            ;
        }
    } else {
        assert(e * 0 == 0) by (nonlinear_arith);
        assert(k.denominator * 0 == 0) by (nonlinear_arith);
    }
}

impl KernelName {
    /// The kernel that `name` names: `jarvis` and `atkinson` name theirs, and
    /// any other text names the kernel of Floyd and Steinberg.
    pub fn from_name(name: &str) -> (k: KernelName)
        ensures
            k == name_of(name@),
    {
        if same_text(name, "jarvis") {
            KernelName::Jarvis
        } else if same_text(name, "atkinson") {
            KernelName::Atkinson
        } else {
            KernelName::Floyd
        }
    }

    /// The kernel of this name.
    pub fn kernel(self) -> (k: Kernel)
        ensures
            k@ == kernel_named(self),
    {
        match self {
            KernelName::Floyd => Kernel::floyd_steinberg(),
            KernelName::Jarvis => Kernel::jarvis(),
            KernelName::Atkinson => Kernel::atkinson(),
        }
    }
}

impl Kernel {
    #[verifier::type_invariant]
    pub(crate) closed spec fn well_formed(&self) -> bool {
        self.denominator > 0 && self.taps@.len() <= MAX_TAPS
    }

    /// A kernel of the given taps, in their order, with weights in parts of
    /// `denominator`. A zero denominator is rejected, and so are more than
    /// `MAX_TAPS` taps.
    pub fn new(taps: Vec<Tap>, denominator: u32) -> (r: Result<Kernel, KernelError>)
        ensures
            r == Err::<Kernel, KernelError>(KernelError::ZeroDenominator) <==> denominator == 0,
            r == Err::<Kernel, KernelError>(KernelError::TooManyTaps) <==> denominator != 0
                && taps@.len() > MAX_TAPS,
            r matches Ok(k) ==> k@ == (KernelView {
                taps: taps@,
                denominator: denominator as nat,
            }),
    {
        if denominator == 0 {
            Err(KernelError::ZeroDenominator)
        } else if taps.len() > MAX_TAPS {
            Err(KernelError::TooManyTaps)
        } else {
            Ok(Kernel { taps, denominator })
        }
    }

    /// The kernel that sends half of the error right and half of it down.
    pub fn halves() -> (k: Kernel)
        ensures
            k@ == halves(),
    {
        let mut taps: Vec<Tap> = Vec::new();
        taps.push(Tap { dx: 1, dy: 0, weight: 1 });
        taps.push(Tap { dx: 0, dy: 1, weight: 1 });
        assert(taps@ =~= halves().taps);
        Kernel { taps, denominator: 2 }
    }

    /// The kernel of Floyd and Steinberg.
    pub fn floyd_steinberg() -> (k: Kernel)
        ensures
            k@ == floyd_steinberg(),
    {
        let mut taps: Vec<Tap> = Vec::new();
        taps.push(Tap { dx: 1, dy: 0, weight: 7 });
        taps.push(Tap { dx: -1, dy: 1, weight: 3 });
        taps.push(Tap { dx: 0, dy: 1, weight: 5 });
        taps.push(Tap { dx: 1, dy: 1, weight: 1 });
        assert(taps@ =~= floyd_steinberg().taps);
        Kernel { taps, denominator: 16 }
    }

    /// The kernel of Jarvis, Judice and Ninke.
    pub fn jarvis() -> (k: Kernel)
        ensures
            k@ == jarvis(),
    {
        let mut taps: Vec<Tap> = Vec::new();
        taps.push(Tap { dx: 1, dy: 0, weight: 7 });
        taps.push(Tap { dx: 2, dy: 0, weight: 5 });
        taps.push(Tap { dx: -2, dy: 1, weight: 3 });
        taps.push(Tap { dx: -1, dy: 1, weight: 5 });
        taps.push(Tap { dx: 0, dy: 1, weight: 7 });
        taps.push(Tap { dx: 1, dy: 1, weight: 5 });
        taps.push(Tap { dx: 2, dy: 1, weight: 3 });
        taps.push(Tap { dx: -2, dy: 2, weight: 1 });
        taps.push(Tap { dx: -1, dy: 2, weight: 3 });
        taps.push(Tap { dx: 0, dy: 2, weight: 5 });
        taps.push(Tap { dx: 1, dy: 2, weight: 3 });
        taps.push(Tap { dx: 2, dy: 2, weight: 1 });
        assert(taps@ =~= jarvis().taps);
        Kernel { taps, denominator: 48 }
    }

    /// The kernel of Atkinson.
    pub fn atkinson() -> (k: Kernel)
        ensures
            k@ == atkinson(),
    {
        let mut taps: Vec<Tap> = Vec::new();
        taps.push(Tap { dx: 1, dy: 0, weight: 1 });
        taps.push(Tap { dx: 2, dy: 0, weight: 1 });
        taps.push(Tap { dx: -1, dy: 1, weight: 1 });
        taps.push(Tap { dx: 0, dy: 1, weight: 1 });
        taps.push(Tap { dx: 1, dy: 1, weight: 1 });
        taps.push(Tap { dx: 0, dy: 2, weight: 1 });
        assert(taps@ =~= atkinson().taps);
        Kernel { taps, denominator: 8 }
    }

    /// Number of taps.
    pub fn len(&self) -> (n: usize)
        ensures
            n == self@.taps.len(),
            n <= MAX_TAPS,
    {
        proof {
            use_type_invariant(self);
        }
        self.taps.len()
    }

    /// The tap at position `i`.
    pub(crate) fn entry(&self, i: usize) -> (t: Tap)
        requires
            i < self@.taps.len(),
        ensures
            t == self@.taps[i as int],
    {
        self.taps[i]
    }

    /// The tap at position `i`, or `None` past the end.
    pub fn tap(&self, i: usize) -> (t: Option<Tap>)
        ensures
            t == if i < self@.taps.len() {
                Some(self@.taps[i as int])
            } else {
                None
            },
    {
        if i < self.taps.len() {
            Some(self.taps[i])
        } else {
            None
        }
    }

    /// The denominator of the weights, which is never zero.
    pub fn denominator(&self) -> (d: u32)
        ensures
            d == self@.denominator,
            d > 0,
    {
        proof {
            use_type_invariant(self);
        }
        self.denominator
    }
}

} // verus!
