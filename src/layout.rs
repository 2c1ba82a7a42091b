use vstd::prelude::*;

verus! {

/// The drawing area, in whole pixels: its top-left corner and its size.
#[derive(Clone, Copy, Debug, PartialEq, Eq)]
pub struct Viewport {
    pub x: i32,
    pub y: i32,
    pub width: u32,
    pub height: u32,
}

/// One term's square in the spiral, in whole pixels.
#[derive(Clone, Copy, Debug, PartialEq, Eq)]
pub struct FibonacciRectangle {
    pub x: i64,
    pub y: i64,
    pub width: i64,
    pub height: i64,
    pub value: u64,
    pub index: usize,
}

/// The mathematical picture of a placed rectangle.
pub struct Tile {
    pub x: int,
    pub y: int,
    pub width: int,
    pub height: int,
    pub value: nat,
    pub index: nat,
}

impl View for FibonacciRectangle {
    type V = Tile;

    open spec fn view(&self) -> Tile {
        Tile {
            x: self.x as int,
            y: self.y as int,
            width: self.width as int,
            height: self.height as int,
            value: self.value as nat,
            index: self.index as nat,
        }
    }
}

/// The smallest scale, in pixels per unit, that keeps the smallest terms legible.
pub const MIN_UNIT: u64 = 20;

/// The largest scale, which keeps a single term from filling the view.
pub const MAX_UNIT: u64 = 35;

/// Only this many terms are laid out; later terms are left out of the picture.
pub const MAX_TILES: usize = 12;

/// `r` is the integer square root of `n`.
pub open spec fn is_floor_sqrt(n: nat, r: nat) -> bool {
    r * r <= n < (r + 1) * (r + 1)
}

/// The integer square root: the largest `r` with `r * r <= n`.
pub open spec fn floor_sqrt(n: nat) -> nat {
    choose|r: nat| #[trigger] is_floor_sqrt(n, r)
}

proof fn lemma_floor_sqrt_exists(n: nat)
    ensures
        exists|r: nat| #[trigger] is_floor_sqrt(n, r),
    decreases n,
{
    if n == 0 {
        assert(is_floor_sqrt(0, 0)) by (nonlinear_arith);
    } else {
        lemma_floor_sqrt_exists((n - 1) as nat);
        let r = choose|r: nat| #[trigger] is_floor_sqrt((n - 1) as nat, r);
        if (r + 1) * (r + 1) <= n {
            assert((r + 1) * (r + 1) == n);
            assert(n < (r + 2) * (r + 2)) by (nonlinear_arith)
                requires
                    (r + 1) * (r + 1) == n,
            ;
            assert(is_floor_sqrt(n, r + 1));
        } else {
            assert(is_floor_sqrt(n, r));
        }
    }
}

/// `floor_sqrt` is the unique integer square root.
pub proof fn lemma_floor_sqrt(n: nat)
    ensures
        is_floor_sqrt(n, floor_sqrt(n)),
        forall|r: nat| #[trigger] is_floor_sqrt(n, r) ==> r == floor_sqrt(n),
{
    lemma_floor_sqrt_exists(n);
    let s = floor_sqrt(n);
    assert forall|r: nat| #[trigger] is_floor_sqrt(n, r) implies r == s by {
        if r < s {
            assert((r + 1) * (r + 1) <= s * s) by (nonlinear_arith)
                requires
                    r + 1 <= s,
            ;
        } else if s < r {
            assert((s + 1) * (s + 1) <= r * r) by (nonlinear_arith)
                requires
                    s + 1 <= r,
            ;
        }
    }
}

/// Returns the integer square root of `n`, by bisection.
fn isqrt(n: u128) -> (r: u64)
    ensures
        r == floor_sqrt(n as nat),
{
    let mut lo: u128 = 0;
    let mut hi: u128 = 0x1_0000_0000_0000_0000;
    assert(hi * hi > n) by (nonlinear_arith)
        requires
            hi == 0x1_0000_0000_0000_0000u128,
            n <= u128::MAX,
    ;
    while hi - lo > 1
        invariant
            lo < hi <= 0x1_0000_0000_0000_0000,
            lo * lo <= n,
            n < hi * hi,
        decreases hi - lo,
    {
        let mid = lo + (hi - lo) / 2;
        assert(mid * mid <= 0xffff_ffff_ffff_fffe_0000_0000_0000_0001) by (nonlinear_arith)
            requires
                mid < 0x1_0000_0000_0000_0000,
        ;
        if mid * mid <= n {
            lo = mid;
        } else {
            hi = mid;
        }
    }
    proof {
        lemma_floor_sqrt(n as nat);
        assert(is_floor_sqrt(n as nat, lo as nat));
    }
    lo as u64
}

/// The largest value in `s`, or 0 for an empty sequence.
pub open spec fn seq_max(s: Seq<u64>) -> nat
    decreases s.len(),
{
    if s.len() == 0 {
        0
    } else {
        let m = seq_max(s.drop_last());
        if s.last() > m {
            s.last() as nat
        } else {
            m
        }
    }
}

/// The scale of the spiral: the largest unit such that the largest term's
/// square, `sqrt(value) * unit * 1.2` wide, fits in half the smaller side of
/// the view, that is `floor(sqrt(25 * available^2 / (36 * largest)))`; then
/// kept between `MIN_UNIT` and `MAX_UNIT`.
pub open spec fn unit_spec(viewport: Viewport, largest: nat) -> nat {
    let side: nat = if viewport.width <= viewport.height {
        viewport.width as nat
    } else {
        viewport.height as nat
    };
    let available: nat = side / 2;
    let fitting: nat = if largest == 0 {
        MAX_UNIT as nat
    } else {
        let f = floor_sqrt(25 * available * available / (36 * largest));
        if f < MAX_UNIT {
            f
        } else {
            MAX_UNIT as nat
        }
    };
    if fitting < MIN_UNIT {
        MIN_UNIT as nat
    } else {
        fitting
    }
}

/// The side of a term's square: `sqrt(value) * unit * 1.2`, rounded down.
pub open spec fn scaled_size(value: nat, unit: nat) -> nat {
    floor_sqrt(36 * unit * unit * value) / 5
}

/// Returns the largest value of a non-empty sequence.
fn largest_term(s: &[u64]) -> (r: u64)
    requires
        s@.len() > 0,
    ensures
        r == seq_max(s@),
{
    let mut m: u64 = 0;
    let mut i: usize = 0;
    while i < s.len()
        invariant
            i <= s@.len(),
            m == seq_max(s@.subrange(0, i as int)),
        decreases s@.len() - i,
    {
        assert(s@.subrange(0, i as int + 1).drop_last() =~= s@.subrange(0, i as int));
        if s[i] > m {
            m = s[i];
        }
        i = i + 1;
    }
    assert(s@.subrange(0, s@.len() as int) =~= s@);
    m
}

/// Returns the scale of the spiral for this view and sequence.
pub fn spiral_unit(viewport: &Viewport, fibonacci_sequence: &[u64]) -> (r: u64)
    requires
        fibonacci_sequence@.len() > 0,
    ensures
        r == unit_spec(*viewport, seq_max(fibonacci_sequence@)),
        MIN_UNIT <= r <= MAX_UNIT,
{
    let largest = largest_term(fibonacci_sequence);
    let side: u64 = if viewport.width <= viewport.height {
        viewport.width as u64
    } else {
        viewport.height as u64
    };
    let available: u64 = side / 2;
    let fitting: u64 = if largest == 0 {
        MAX_UNIT
    } else {
        let a: u128 = available as u128;
        assert(a * a <= 0x4000_0000_0000_0000) by (nonlinear_arith)
            requires
                a <= 0x8000_0000,
        ;
        assert(25 * (a * a) == 25 * available * available) by (nonlinear_arith)
            requires
                a == available,
        ;
        let f = isqrt((25 * (a * a)) / (36 * (largest as u128)));
        if f < MAX_UNIT {
            f
        } else {
            MAX_UNIT
        }
    };
    if fitting < MIN_UNIT {
        MIN_UNIT
    } else {
        fitting
    }
}

/// The spiral while it grows: the tiles placed so far and the box that holds them.
pub struct Growth {
    pub tiles: Seq<Tile>,
    pub x: int,
    pub y: int,
    pub width: int,
    pub height: int,
}

/// Terms 0 and 1: two equal squares side by side at the origin.
pub open spec fn seed_growth(unit: nat) -> Growth {
    let s = scaled_size(1, unit) as int;
    Growth {
        tiles: seq![
            Tile { x: 0, y: 0, width: s, height: s, value: 1, index: 0 },
            Tile { x: s, y: 0, width: s, height: s, value: 1, index: 1 },
        ],
        x: 0,
        y: 0,
        width: 2 * s,
        height: s,
    }
}

/// Places term `index` (at least 2) flush against the box, on the side that the
/// cycle down, left, up, right gives, and widens the box to hold it.
pub open spec fn grow(g: Growth, size: int, value: nat, index: nat) -> Growth {
    let dir = (index - 2) % 4;
    if dir == 0 {
        Growth {
            tiles: g.tiles.push(
                Tile { x: g.x, y: g.y + g.height, width: g.width, height: size, value, index },
            ),
            height: g.height + size,
            ..g
        }
    } else if dir == 1 {
        Growth {
            tiles: g.tiles.push(
                Tile { x: g.x - size, y: g.y, width: size, height: g.height, value, index },
            ),
            x: g.x - size,
            width: g.width + size,
            ..g
        }
    } else if dir == 2 {
        Growth {
            tiles: g.tiles.push(
                Tile { x: g.x, y: g.y - size, width: g.width, height: size, value, index },
            ),
            y: g.y - size,
            height: g.height + size,
            ..g
        }
    } else {
        Growth {
            tiles: g.tiles.push(
                Tile { x: g.x + g.width, y: g.y, width: size, height: g.height, value, index },
            ),
            width: g.width + size,
            ..g
        }
    }
}

/// The spiral after its first `k` terms (at least the two seeds) are placed.
pub open spec fn growth(s: Seq<u64>, unit: nat, k: nat) -> Growth
    decreases k,
{
    if k <= 2 {
        seed_growth(unit)
    } else {
        let i = (k - 1) as nat;
        grow(growth(s, unit, i), scaled_size(s[i as int] as nat, unit) as int, s[i as int] as nat, i)
    }
}

/// How many terms of a sequence of length `len` are drawn.
pub open spec fn placed_count(len: nat) -> nat {
    if len < MAX_TILES {
        len
    } else {
        MAX_TILES as nat
    }
}

pub open spec fn min_left(ts: Seq<Tile>) -> int
    decreases ts.len(),
{
    if ts.len() <= 1 {
        ts[0].x
    } else {
        let m = min_left(ts.drop_last());
        if ts.last().x < m {
            ts.last().x
        } else {
            m
        }
    }
}

pub open spec fn min_top(ts: Seq<Tile>) -> int
    decreases ts.len(),
{
    if ts.len() <= 1 {
        ts[0].y
    } else {
        let m = min_top(ts.drop_last());
        if ts.last().y < m {
            ts.last().y
        } else {
            m
        }
    }
}

pub open spec fn max_right(ts: Seq<Tile>) -> int
    decreases ts.len(),
{
    if ts.len() <= 1 {
        ts[0].x + ts[0].width
    } else {
        let m = max_right(ts.drop_last());
        if ts.last().x + ts.last().width > m {
            ts.last().x + ts.last().width
        } else {
            m
        }
    }
}

pub open spec fn max_bottom(ts: Seq<Tile>) -> int
    decreases ts.len(),
{
    if ts.len() <= 1 {
        ts[0].y + ts[0].height
    } else {
        let m = max_bottom(ts.drop_last());
        if ts.last().y + ts.last().height > m {
            ts.last().y + ts.last().height
        } else {
            m
        }
    }
}

/// The shift along x that puts the middle of the tiles' bounding box on the
/// middle of the view.
pub open spec fn offset_x(viewport: Viewport, ts: Seq<Tile>) -> int {
    (viewport.x + viewport.width / 2) - (min_left(ts) + (max_right(ts) - min_left(ts)) / 2)
}

/// The shift along y, as `offset_x`.
pub open spec fn offset_y(viewport: Viewport, ts: Seq<Tile>) -> int {
    (viewport.y + viewport.height / 2) - (min_top(ts) + (max_bottom(ts) - min_top(ts)) / 2)
}

pub open spec fn shift(t: Tile, dx: int, dy: int) -> Tile {
    Tile { x: t.x + dx, y: t.y + dy, ..t }
}

/// The spiral for a sequence in a view: no rectangles for fewer than three
/// terms; else one per drawn term, placed by `growth` and moved as a whole so
/// that its bounding box is centred in the view.
pub open spec fn spiral_layout(viewport: Viewport, s: Seq<u64>) -> Seq<Tile> {
    if s.len() < 3 {
        Seq::empty()
    } else {
        let unit = unit_spec(viewport, seq_max(s));
        let raw = growth(s, unit, placed_count(s.len())).tiles;
        let dx = offset_x(viewport, raw);
        let dy = offset_y(viewport, raw);
        raw.map_values(|t: Tile| shift(t, dx, dy))
    }
}

/// A bound on every term's side: 2 to the power 40.
pub open spec fn side_bound() -> int {
    0x100_0000_0000
}

proof fn lemma_scaled_size_bound(value: nat, unit: nat)
    requires
        value <= u64::MAX,
        unit <= MAX_UNIT,
    ensures
        scaled_size(value, unit) <= side_bound(),
{
    let n = 36 * unit * unit * value;
    assert(n <= 44100 * 0xffff_ffff_ffff_ffff) by (nonlinear_arith)
        requires
            n == 36 * unit * unit * value,
            unit <= 35,
            value <= 0xffff_ffff_ffff_ffff,
    ;
    lemma_floor_sqrt(n);
    let r = floor_sqrt(n);
    if r > side_bound() {
        assert(r * r > 0x1_0000_0000_0000_0000_0000) by (nonlinear_arith)
            requires
                r > 0x100_0000_0000,
        ;
    }
}

/// Every tile lies in the box of `g`, and the box in `[-b, b]` on both axes.
pub open spec fn growth_within(g: Growth, b: int) -> bool {
    &&& -b <= g.x && g.x + g.width <= b && 0 <= g.width
    &&& -b <= g.y && g.y + g.height <= b && 0 <= g.height
    &&& forall|j: int|
        0 <= j < g.tiles.len() ==> {
            let t = #[trigger] g.tiles[j];
            &&& g.x <= t.x && t.x + t.width <= g.x + g.width && 0 <= t.width
            &&& g.y <= t.y && t.y + t.height <= g.y + g.height && 0 <= t.height
            &&& t.index == j
            &&& t.value <= u64::MAX
        }
}

proof fn lemma_growth_within(s: Seq<u64>, unit: nat, k: nat)
    requires
        2 <= k <= s.len(),
        unit <= MAX_UNIT,
    ensures
        growth(s, unit, k).tiles.len() == k,
        growth_within(growth(s, unit, k), k * side_bound()),
    decreases k,
{
    lemma_scaled_size_bound(1, unit);
    if k > 2 {
        let i = (k - 1) as nat;
        lemma_growth_within(s, unit, i);
        lemma_scaled_size_bound(s[i as int] as nat, unit);
        let g = growth(s, unit, i);
        let h = growth(s, unit, k);
        assert(h.tiles.len() == k);
        assert forall|j: int| 0 <= j < h.tiles.len() implies {
            let t = #[trigger] h.tiles[j];
            &&& h.x <= t.x && t.x + t.width <= h.x + h.width && 0 <= t.width
            &&& h.y <= t.y && t.y + t.height <= h.y + h.height && 0 <= t.height
            &&& t.index == j
            &&& t.value <= u64::MAX
        } by {
            if j < i {
                assert(h.tiles[j] == g.tiles[j]);
            }
        }
    }
}

/// Returns the side of a term's square, as `scaled_size` gives it.
fn tile_side(value: u64, unit: u64) -> (r: i64)
    requires
        unit <= MAX_UNIT,
    ensures
        r == scaled_size(value as nat, unit as nat),
{
    let u: u128 = unit as u128;
    assert(u * u <= 1225) by (nonlinear_arith)
        requires
            u <= 35,
    ;
    let scale: u128 = 36 * (u * u);
    assert(scale * (value as u128) <= 44100 * 0xffff_ffff_ffff_ffffu128) by (nonlinear_arith)
        requires
            scale == 36 * (u * u),
            u <= 35,
            value <= 0xffff_ffff_ffff_ffff,
    ;
    let n: u128 = scale * (value as u128);
    assert(n == 36 * unit * unit * value) by (nonlinear_arith)
        requires
            n == scale * value,
            scale == 36 * (u * u),
            u == unit,
    ;
    let root = isqrt(n);
    proof {
        lemma_scaled_size_bound(value as nat, unit as nat);
    }
    (root / 5) as i64
}

/// Places the first `placed_count` terms, before centring.
fn place_tiles(fibonacci_sequence: &[u64], unit: u64) -> (r: Vec<FibonacciRectangle>)
    requires
        fibonacci_sequence@.len() >= 2,
        unit <= MAX_UNIT,
    ensures
        r@.map_values(|t: FibonacciRectangle| t@) == growth(
            fibonacci_sequence@,
            unit as nat,
            placed_count(fibonacci_sequence@.len()),
        ).tiles,
{
    let ghost s = fibonacci_sequence@;
    let first = tile_side(1, unit);
    proof {
        lemma_scaled_size_bound(1, unit as nat);
    }
    let mut tiles: Vec<FibonacciRectangle> = Vec::new();
    tiles.push(FibonacciRectangle { x: 0, y: 0, width: first, height: first, value: 1, index: 0 });
    tiles.push(
        FibonacciRectangle { x: first, y: 0, width: first, height: first, value: 1, index: 1 },
    );
    let mut base_x: i64 = 0;
    let mut base_y: i64 = 0;
    let mut current_width: i64 = first * 2;
    let mut current_height: i64 = first;
    let count: usize = if fibonacci_sequence.len() < MAX_TILES {
        fibonacci_sequence.len()
    } else {
        MAX_TILES
    };
    assert(tiles@.map_values(|t: FibonacciRectangle| t@) =~= growth(s, unit as nat, 2).tiles);
    let mut i: usize = 2;
    while i < count
        invariant
            2 <= i <= count,
            count == placed_count(s.len()),
            s == fibonacci_sequence@,
            unit <= MAX_UNIT,
            tiles@.map_values(|t: FibonacciRectangle| t@) == growth(s, unit as nat, i as nat).tiles,
            base_x == growth(s, unit as nat, i as nat).x,
            base_y == growth(s, unit as nat, i as nat).y,
            current_width == growth(s, unit as nat, i as nat).width,
            current_height == growth(s, unit as nat, i as nat).height,
        decreases count - i,
    {
        proof {
            lemma_growth_within(s, unit as nat, i as nat);
            lemma_scaled_size_bound(s[i as int] as nat, unit as nat);
            assert(i * side_bound() <= 12 * side_bound()) by (nonlinear_arith)
                requires
                    i <= 12,
            ;
        }
        let value = fibonacci_sequence[i];
        let size = tile_side(value, unit);
        let dir = (i - 2) % 4;
        let tile = if dir == 0 {
            FibonacciRectangle {
                x: base_x,
                y: base_y + current_height,
                width: current_width,
                height: size,
                value,
                index: i,
            }
        } else if dir == 1 {
            FibonacciRectangle {
                x: base_x - size,
                y: base_y,
                width: size,
                height: current_height,
                value,
                index: i,
            }
        } else if dir == 2 {
            FibonacciRectangle {
                x: base_x,
                y: base_y - size,
                width: current_width,
                height: size,
                value,
                index: i,
            }
        } else {
            FibonacciRectangle {
                x: base_x + current_width,
                y: base_y,
                width: size,
                height: current_height,
                value,
                index: i,
            }
        };
        if dir == 0 {
            current_height = current_height + size;
        } else if dir == 1 {
            base_x = base_x - size;
            current_width = current_width + size;
        } else if dir == 2 {
            base_y = base_y - size;
            current_height = current_height + size;
        } else {
            current_width = current_width + size;
        }
        let ghost before = tiles@;
        tiles.push(tile);
        proof {
            assert(tiles@.map_values(|t: FibonacciRectangle| t@) =~= before.map_values(
                |t: FibonacciRectangle| t@,
            ).push(tile@));
        }
        i = i + 1;
    }
    tiles
}

/// Each tile lies within `[-b, b]` on both axes and has no negative side.
pub open spec fn tiles_within(ts: Seq<Tile>, b: int) -> bool {
    forall|j: int|
        0 <= j < ts.len() ==> {
            let t = #[trigger] ts[j];
            &&& -b <= t.x && t.x + t.width <= b && 0 <= t.width
            &&& -b <= t.y && t.y + t.height <= b && 0 <= t.height
        }
}

proof fn lemma_bbox_range(ts: Seq<Tile>, b: int)
    requires
        ts.len() >= 1,
        tiles_within(ts, b),
    ensures
        -b <= min_left(ts) <= ts[0].x,
        ts[0].x + ts[0].width <= max_right(ts) <= b,
        -b <= min_top(ts) <= ts[0].y,
        ts[0].y + ts[0].height <= max_bottom(ts) <= b,
    decreases ts.len(),
{
    if ts.len() > 1 {
        let p = ts.drop_last();
        assert(tiles_within(p, b)) by {
            assert forall|j: int| 0 <= j < p.len() implies #[trigger] p[j] == ts[j] by {}
        }
        lemma_bbox_range(p, b);
        assert(ts.last() == ts[ts.len() - 1]);
    }
}

proof fn lemma_bbox_shift(ts: Seq<Tile>, dx: int, dy: int)
    requires
        ts.len() >= 1,
    ensures
        min_left(ts.map_values(|t: Tile| shift(t, dx, dy))) == min_left(ts) + dx,
        max_right(ts.map_values(|t: Tile| shift(t, dx, dy))) == max_right(ts) + dx,
        min_top(ts.map_values(|t: Tile| shift(t, dx, dy))) == min_top(ts) + dy,
        max_bottom(ts.map_values(|t: Tile| shift(t, dx, dy))) == max_bottom(ts) + dy,
    decreases ts.len(),
{
    let m = ts.map_values(|t: Tile| shift(t, dx, dy));
    if ts.len() > 1 {
        let p = ts.drop_last();
        lemma_bbox_shift(p, dx, dy);
        assert(m.drop_last() =~= p.map_values(|t: Tile| shift(t, dx, dy)));
    }
}

/// Returns the offsets that centre the bounding box of `tiles` in the view.
fn centring_offsets(viewport: &Viewport, tiles: &Vec<FibonacciRectangle>) -> (r: (i64, i64))
    requires
        tiles@.len() >= 1,
        tiles_within(tiles@.map_values(|t: FibonacciRectangle| t@), 12 * side_bound()),
    ensures
        r.0 == offset_x(*viewport, tiles@.map_values(|t: FibonacciRectangle| t@)),
        r.1 == offset_y(*viewport, tiles@.map_values(|t: FibonacciRectangle| t@)),
        -0x4000_0000_0000 <= r.0 <= 0x4000_0000_0000,
        -0x4000_0000_0000 <= r.1 <= 0x4000_0000_0000,
{
    let ghost ts = tiles@.map_values(|t: FibonacciRectangle| t@);
    assert(ts[0] == tiles@[0]@);
    assert(ts[0].x + ts[0].width <= 12 * side_bound());
    let mut min_x: i64 = tiles[0].x;
    let mut min_y: i64 = tiles[0].y;
    let mut max_x: i64 = tiles[0].x + tiles[0].width;
    let mut max_y: i64 = tiles[0].y + tiles[0].height;
    assert(ts[0] == tiles@[0]@);
    let mut i: usize = 1;
    while i < tiles.len()
        invariant
            1 <= i <= tiles@.len(),
            ts == tiles@.map_values(|t: FibonacciRectangle| t@),
            tiles_within(ts, 12 * side_bound()),
            min_x == min_left(ts.subrange(0, i as int)),
            min_y == min_top(ts.subrange(0, i as int)),
            max_x == max_right(ts.subrange(0, i as int)),
            max_y == max_bottom(ts.subrange(0, i as int)),
        decreases tiles@.len() - i,
    {
        let t = tiles[i];
        assert(ts[i as int] == t@);
        assert(ts.subrange(0, i as int + 1).drop_last() =~= ts.subrange(0, i as int));
        assert(ts.subrange(0, i as int + 1).last() == ts[i as int]);
        if t.x < min_x {
            min_x = t.x;
        }
        if t.y < min_y {
            min_y = t.y;
        }
        if t.x + t.width > max_x {
            max_x = t.x + t.width;
        }
        if t.y + t.height > max_y {
            max_y = t.y + t.height;
        }
        i = i + 1;
    }
    assert(ts.subrange(0, tiles@.len() as int) =~= ts);
    proof {
        lemma_bbox_range(ts, 12 * side_bound());
    }
    let centre_x: i64 = viewport.x as i64 + (viewport.width / 2) as i64;
    let centre_y: i64 = viewport.y as i64 + (viewport.height / 2) as i64;
    let dx = centre_x - (min_x + (max_x - min_x) / 2);
    let dy = centre_y - (min_y + (max_y - min_y) / 2);
    (dx, dy)
}

/// Returns the spiral of rectangles for a sequence in a view: one per term up to
/// `MAX_TILES` terms, none for fewer than three terms; see `spiral_layout`.
pub fn calculate_spiral_rectangles(viewport: &Viewport, fibonacci_sequence: &[u64]) -> (r: Vec<
    FibonacciRectangle,
>)
    ensures
        r@.map_values(|t: FibonacciRectangle| t@) == spiral_layout(*viewport, fibonacci_sequence@),
{
    let ghost s = fibonacci_sequence@;
    if fibonacci_sequence.len() < 3 {
        let empty: Vec<FibonacciRectangle> = Vec::new();
        assert(empty@.map_values(|t: FibonacciRectangle| t@) =~= Seq::<Tile>::empty());
        return empty;
    }
    let unit = spiral_unit(viewport, fibonacci_sequence);
    let raw = place_tiles(fibonacci_sequence, unit);
    let ghost count = placed_count(s.len());
    let ghost ts = raw@.map_values(|t: FibonacciRectangle| t@);
    proof {
        lemma_growth_within(s, unit as nat, count);
        assert(count * side_bound() <= 12 * side_bound()) by (nonlinear_arith)
            requires
                count <= 12,
        ;
        assert(tiles_within(ts, 12 * side_bound())) by {
            assert forall|j: int| 0 <= j < ts.len() implies {
                let t = #[trigger] ts[j];
                &&& -12 * side_bound() <= t.x && t.x + t.width <= 12 * side_bound() && 0 <= t.width
                &&& -12 * side_bound() <= t.y && t.y + t.height <= 12 * side_bound() && 0 <= t.height
            } by {
                let g = growth(s, unit as nat, count);
                assert(ts[j] == g.tiles[j]);
            }
        }
    }
    let (dx, dy) = centring_offsets(viewport, &raw);
    let mut rectangles: Vec<FibonacciRectangle> = Vec::new();
    let mut i: usize = 0;
    while i < raw.len()
        invariant
            i <= raw@.len(),
            ts == raw@.map_values(|t: FibonacciRectangle| t@),
            tiles_within(ts, 12 * side_bound()),
            -0x4000_0000_0000 <= dx <= 0x4000_0000_0000,
            -0x4000_0000_0000 <= dy <= 0x4000_0000_0000,
            rectangles@.map_values(|t: FibonacciRectangle| t@) =~= ts.subrange(
                0,
                i as int,
            ).map_values(|t: Tile| shift(t, dx as int, dy as int)),
        decreases raw@.len() - i,
    {
        let t = raw[i];
        assert(ts[i as int] == t@);
        let moved = FibonacciRectangle { x: t.x + dx, y: t.y + dy, ..t };
        let ghost before = rectangles@;
        rectangles.push(moved);
        proof {
            assert(rectangles@.map_values(|t: FibonacciRectangle| t@) =~= before.map_values(
                |t: FibonacciRectangle| t@,
            ).push(moved@));
            assert(ts.subrange(0, i as int + 1).map_values(
                |t: Tile| shift(t, dx as int, dy as int),
            ) =~= ts.subrange(0, i as int).map_values(
                |t: Tile| shift(t, dx as int, dy as int),
            ).push(shift(ts[i as int], dx as int, dy as int)));
        }
        i = i + 1;
    }
    assert(ts.subrange(0, raw@.len() as int) =~= ts);
    rectangles
}

/// For three or more terms the spiral has one rectangle per drawn term, and
/// the middle of its bounding box lies within half a pixel of the middle of the
/// view on both axes: twice the one differs from twice the other by at most 1.
pub proof fn lemma_layout_centred(viewport: Viewport, s: Seq<u64>)
    requires
        s.len() >= 3,
    ensures
        spiral_layout(viewport, s).len() == placed_count(s.len()),
        -1 <= (min_left(spiral_layout(viewport, s)) + max_right(spiral_layout(viewport, s))) - (2
            * viewport.x + viewport.width) <= 1,
        -1 <= (min_top(spiral_layout(viewport, s)) + max_bottom(spiral_layout(viewport, s))) - (2
            * viewport.y + viewport.height) <= 1,
{
    let unit = unit_spec(viewport, seq_max(s));
    let raw = growth(s, unit, placed_count(s.len())).tiles;
    lemma_growth_within(s, unit, placed_count(s.len()));
    let dx = offset_x(viewport, raw);
    let dy = offset_y(viewport, raw);
    lemma_bbox_shift(raw, dx, dy);
}

/// Fewer than three terms give no rectangles.
pub proof fn lemma_layout_short(viewport: Viewport, s: Seq<u64>)
    requires
        s.len() < 3,
    ensures
        spiral_layout(viewport, s).len() == 0,
{
}

/// The layout depends on the sequence and the view alone: computing it again
/// from the same inputs gives the same rectangles.
pub proof fn lemma_layout_repeatable(v1: Viewport, s1: Seq<u64>, v2: Viewport, s2: Seq<u64>)
    requires
        v1 == v2,
        s1 == s2,
    ensures
        spiral_layout(v1, s1) == spiral_layout(v2, s2),
{
}

proof fn lemma_scaled_size_positive(value: nat, unit: nat)
    requires
        value >= 1,
        unit >= MIN_UNIT,
    ensures
        scaled_size(value, unit) >= 24,
{
    let n = 36 * unit * unit * value;
    lemma_floor_sqrt(n);
    let r = floor_sqrt(n);
    assert(36 * unit * unit <= n) by (nonlinear_arith)
        requires
            n == 36 * unit * unit * value,
            value >= 1,
    ;
    assert((6 * unit) * (6 * unit) == 36 * unit * unit) by (nonlinear_arith);
    if r < 6 * unit {
        assert((r + 1) * (r + 1) <= (6 * unit) * (6 * unit)) by (nonlinear_arith)
            requires
                r + 1 <= 6 * unit,
        ;
    }
    assert(r >= 120);
}

proof fn lemma_growth_positive(s: Seq<u64>, unit: nat, k: nat)
    requires
        2 <= k <= s.len(),
        MIN_UNIT <= unit,
        forall|j: int| 2 <= j < k ==> s[j] > 0,
    ensures
        growth(s, unit, k).width > 0,
        growth(s, unit, k).height > 0,
        growth(s, unit, k).tiles.len() == k,
        forall|j: int|
            0 <= j < k ==> (#[trigger] growth(s, unit, k).tiles[j]).width > 0 && growth(
                s,
                unit,
                k,
            ).tiles[j].height > 0,
    decreases k,
{
    lemma_scaled_size_positive(1, unit);
    if k > 2 {
        let i = (k - 1) as nat;
        lemma_growth_positive(s, unit, i);
        lemma_scaled_size_positive(s[i as int] as nat, unit);
        let g = growth(s, unit, i);
        let h = growth(s, unit, k);
        assert forall|j: int| 0 <= j < k implies (#[trigger] h.tiles[j]).width > 0
            && h.tiles[j].height > 0 by {
            if j < i {
                assert(h.tiles[j] == g.tiles[j]);
            }
        }
    }
}

/// Where every drawn term from index 2 on is positive, every rectangle of the
/// spiral has a positive width and height.
pub proof fn lemma_layout_positive_sides(viewport: Viewport, s: Seq<u64>)
    requires
        s.len() >= 3,
        forall|j: int| 2 <= j < placed_count(s.len()) ==> s[j] > 0,
    ensures
        forall|j: int|
            0 <= j < spiral_layout(viewport, s).len() ==> (#[trigger] spiral_layout(
                viewport,
                s,
            )[j]).width > 0 && spiral_layout(viewport, s)[j].height > 0,
{
    let unit = unit_spec(viewport, seq_max(s));
    lemma_growth_positive(s, unit, placed_count(s.len()));
}

} // verus!
