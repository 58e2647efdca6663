use vstd::prelude::*;
use crate::tiles::{color_idx, color_index, color_of, color_of_idx, CeramicTile, TileBag};

verus! {

/// The predetermined color of wall cell (i, j): the top row carries the color
/// cycle in order, and every following row shifts it one cell to the right.
pub open spec fn wall_color_spec(i: int, j: int) -> CeramicTile
    recommends
        0 <= i < 5,
        0 <= j < 5,
{
    color_of_idx(if j >= i { j - i } else { j - i + 5 })
}

/// The one column of row `i` whose predetermined color is `c`.
pub open spec fn wall_col_spec(i: int, c: CeramicTile) -> int {
    if i + color_idx(c) < 5 {
        i + color_idx(c)
    } else {
        i + color_idx(c) - 5
    }
}

/// The predetermined color of wall cell (i, j), as executable code.
pub fn wall_color(i: usize, j: usize) -> (c: CeramicTile)
    requires
        i < 5,
        j < 5,
    ensures
        c == wall_color_spec(i as int, j as int),
{
    if j >= i {
        color_of(j - i)
    } else {
        color_of(j + 5 - i)
    }
}

pub fn wall_col(i: usize, c: CeramicTile) -> (j: usize)
    requires
        i < 5,
    ensures
        j == wall_col_spec(i as int, c),
        j < 5,
{
    let k = i + color_index(c);
    if k < 5 {
        k
    } else {
        k - 5
    }
}

/// Number of filled cells among the first `k` cells of a wall grid.
pub open spec fn wall_filled_upto(w: Seq<bool>, k: int) -> int
    decreases k,
{
    if k <= 0 {
        0
    } else {
        wall_filled_upto(w, k - 1) + if w[k - 1] { 1int } else { 0int }
    }
}

/// Number of filled cells of a whole wall grid.
pub open spec fn wall_filled(w: Seq<bool>) -> int {
    wall_filled_upto(w, 25)
}

pub proof fn lemma_wall_filled_bounds(w: Seq<bool>, k: int)
    requires
        k >= 0,
    ensures
        0 <= wall_filled_upto(w, k) <= k,
    decreases k,
{
    if k > 0 {
        lemma_wall_filled_bounds(w, k - 1);
    }
}

/// Filling one unfilled cell raises the filled count of a prefix that covers
/// it by one; filling a cell outside the prefix does not change it.
pub proof fn lemma_wall_filled_update(w: Seq<bool>, k: int, n: int)
    requires
        0 <= k < w.len(),
        0 <= n <= w.len(),
    ensures
        wall_filled_upto(w.update(k, true), n) == wall_filled_upto(w, n) + if k < n && !w[k] {
            1int
        } else {
            0int
        },
    decreases n,
{
    if n > 0 {
        lemma_wall_filled_update(w, k, n - 1);
    }
}

/// Tiles held on the first `k` pattern lines.
pub open spec fn lines_tiles_upto(lines: Seq<(Option<CeramicTile>, u32)>, k: int) -> int
    decreases k,
{
    if k <= 0 {
        0
    } else {
        lines_tiles_upto(lines, k - 1) + lines[k - 1].1
    }
}

/// Colored tiles among the first `k` floor-line slots (the first-player marker
/// does not count).
pub open spec fn floor_colored_upto(floor: Seq<Option<CeramicTile>>, k: int) -> int
    decreases k,
{
    if k <= 0 {
        0
    } else {
        floor_colored_upto(floor, k - 1) + if floor[k - 1] is Some { 1int } else { 0int }
    }
}

/// First-player markers among the first `k` floor-line slots.
pub open spec fn floor_markers_upto(floor: Seq<Option<CeramicTile>>, k: int) -> int
    decreases k,
{
    if k <= 0 {
        0
    } else {
        floor_markers_upto(floor, k - 1) + if floor[k - 1] is None { 1int } else { 0int }
    }
}

/// Ghost model of one player's board.
#[verifier::ext_equal]
pub ghost struct PlayerModel {
    pub name: Seq<char>,
    /// Pattern line `i` holds `lines[i].1` tiles of color `lines[i].0`;
    /// its capacity is `i + 1`.
    pub lines: Seq<(Option<CeramicTile>, u32)>,
    /// Row-major 5 x 5 grid of `filled` flags; cell colors are fixed by
    /// `wall_color_spec`.
    pub wall: Seq<bool>,
    pub floor: Seq<Option<CeramicTile>>,
    pub score: u32,
}

/// All the tiles a board holds: staged on pattern lines, dropped on the floor
/// line, or sitting on the wall (one per filled cell).
pub open spec fn player_tiles(p: PlayerModel) -> int {
    lines_tiles_upto(p.lines, 5) + floor_colored_upto(p.floor, p.floor.len() as int)
        + wall_filled(p.wall)
}

impl PlayerModel {
    pub open spec fn wf(self) -> bool {
        &&& self.lines.len() == 5
        &&& self.wall.len() == 25
        &&& forall|i: int| 0 <= i < 5 ==> (#[trigger] self.lines[i]).1 <= i + 1
        &&& forall|i: int| 0 <= i < 5 ==> ((#[trigger] self.lines[i]).1 > 0 ==> self.lines[i].0 is Some)
        &&& forall|i: int|
            0 <= i < 5 ==> ((#[trigger] self.lines[i]).1 > 0 ==> !self.wall[i * 5 + wall_col_spec(
                i,
                self.lines[i].0.unwrap(),
            )])
        &&& self.score <= 10 * wall_filled(self.wall)
    }

    /// A board as it stands before the first draft of a match.
    pub open spec fn fresh(self) -> bool {
        &&& self.lines.len() == 5
        &&& self.wall.len() == 25
        &&& forall|i: int| 0 <= i < 5 ==> #[trigger] self.lines[i] == (None::<CeramicTile>, 0u32)
        &&& forall|k: int| 0 <= k < 25 ==> !(#[trigger] self.wall[k])
        &&& self.floor.len() == 0
        &&& self.score == 0
    }

    /// Placement legality: dropping everything on the floor line is always
    /// legal; a pattern line takes the color only if the row exists, the line
    /// is empty or already of that color, and the row's wall cell of that
    /// color is still unfilled.
    pub open spec fn can_put_spec(self, c: CeramicTile, row: Option<usize>) -> bool {
        match row {
            None => true,
            Some(r) => r < 5 && (self.lines[r as int].1 == 0 || self.lines[r as int].0 == Some(c))
                && !self.wall[r as int * 5 + wall_col_spec(r as int, c)],
        }
    }

    /// The board after placing `n` tiles of color `c`: the chosen pattern line
    /// fills to at most its capacity, and every tile beyond that — or every
    /// tile at all, when no row is chosen — drops onto the floor line.
    pub open spec fn take_spec(self, c: CeramicTile, n: u32, row: Option<usize>) -> PlayerModel {
        match row {
            None => PlayerModel { floor: self.floor + Seq::new(n as nat, |q: int| Some(c)), ..self },
            Some(r) => {
                let k = self.lines[r as int].1 as int;
                let cap = r as int + 1;
                let new_count = if k + n <= cap { k + n } else { cap };
                let spill = if k + n <= cap { 0int } else { k + n - cap };
                PlayerModel {
                    lines: self.lines.update(r as int, (Some(c), new_count as u32)),
                    floor: self.floor + Seq::new(spill as nat, |q: int| Some(c)),
                    ..self
                }
            },
        }
    }

    /// Whether pattern line `i` has reached its capacity.
    pub open spec fn line_complete(self, i: int) -> bool {
        self.lines[i].1 == i + 1
    }

    /// The wall after resolution: each complete pattern line fills the cell of
    /// its color in its own row.
    pub open spec fn liq_wall(self) -> Seq<bool> {
        Seq::new(
            25,
            |k: int|
                self.wall[k] || {
                    let i = k / 5;
                    self.line_complete(i) && self.lines[i].0 is Some && k % 5 == wall_col_spec(
                        i,
                        self.lines[i].0.unwrap(),
                    )
                },
        )
    }

    /// The pattern lines after resolution: complete lines are cleared, the
    /// rest stay.
    pub open spec fn liq_lines(self) -> Seq<(Option<CeramicTile>, u32)> {
        Seq::new(
            5,
            |i: int|
                if self.line_complete(i) {
                    (None::<CeramicTile>, 0u32)
                } else {
                    self.lines[i]
                },
        )
    }

    /// Tiles of color index `ci` that resolution discards from the complete
    /// lines among rows `[0, upto)`: each such line keeps one tile for the
    /// wall and discards the rest.
    pub open spec fn lines_trash_upto(self, ci: int, upto: int) -> int
        decreases upto,
    {
        if upto <= 0 {
            0
        } else {
            self.lines_trash_upto(ci, upto - 1) + if self.line_complete(upto - 1)
                && self.lines[upto - 1].0 is Some && color_idx(self.lines[upto - 1].0.unwrap())
                == ci {
                self.lines[upto - 1].1 - 1
            } else {
                0int
            }
        }
    }

    /// Number of complete lines among rows `[0, upto)`.
    pub open spec fn complete_count_upto(self, upto: int) -> int
        decreases upto,
    {
        if upto <= 0 {
            0
        } else {
            self.complete_count_upto(upto - 1) + if self.line_complete(upto - 1) {
                1int
            } else {
                0int
            }
        }
    }

    /// Tiles that resolution removes from the complete lines among rows
    /// `[0, upto)`, wall tile included.
    pub open spec fn lines_removed_upto(self, upto: int) -> int
        decreases upto,
    {
        if upto <= 0 {
            0
        } else {
            self.lines_removed_upto(upto - 1) + if self.line_complete(upto - 1) {
                self.lines[upto - 1].1 as int
            } else {
                0int
            }
        }
    }
}

/// Tiles of color index `ci` among the first `k` floor-line slots.
pub open spec fn floor_trash_upto(floor: Seq<Option<CeramicTile>>, ci: int, k: int) -> int
    decreases k,
{
    if k <= 0 {
        0
    } else {
        floor_trash_upto(floor, ci, k - 1) + if floor[k - 1] is Some && color_idx(
            floor[k - 1].unwrap(),
        ) == ci {
            1int
        } else {
            0int
        }
    }
}

impl PlayerModel {
    /// All tiles of color index `ci` that one resolution discards.
    pub open spec fn liq_trash_at(self, ci: int) -> int {
        self.lines_trash_upto(ci, 5) + floor_trash_upto(self.floor, ci, self.floor.len() as int)
    }

    /// Points for the tile on cell (i, j) of wall `w`: the lengths of the
    /// contiguous filled runs through the cell in its row and in its column,
    /// each counted only when it links at least one neighbour; a lone tile is
    /// worth one point.
    pub open spec fn liq_points_upto(self, upto: int) -> int
        decreases upto,
    {
        if upto <= 0 {
            0
        } else {
            self.liq_points_upto(upto - 1) + if self.line_complete(upto - 1) && self.lines[upto
                - 1].0 is Some {
                cell_points(
                    self.liq_wall(),
                    upto - 1,
                    wall_col_spec(upto - 1, self.lines[upto - 1].0.unwrap()),
                )
            } else {
                0int
            }
        }
    }

    /// The score after resolution: the old score, plus the points of every
    /// tile moved onto the wall, minus the floor-line penalty, never below
    /// zero.
    pub open spec fn liq_score(self) -> int {
        let s = self.score + self.liq_points_upto(5) - floor_penalty_spec(self.floor.len() as int);
        if s < 0 {
            0
        } else {
            s
        }
    }

    /// The whole board after one resolution.
    pub open spec fn liq_board(self) -> PlayerModel {
        PlayerModel {
            name: self.name,
            lines: self.liq_lines(),
            wall: self.liq_wall(),
            floor: Seq::empty(),
            score: self.liq_score() as u32,
        }
    }

    /// End detection: the match ends when some wall row is fully filled after
    /// resolution.
    pub open spec fn liq_end(self) -> bool {
        exists|i: int| 0 <= i < 5 && row_full(self.liq_wall(), i)
    }
}

pub open spec fn row_full(w: Seq<bool>, i: int) -> bool {
    forall|j: int| 0 <= j < 5 ==> #[trigger] w[i * 5 + j]
}

/// Contiguous filled cells of row `i` left of column `j`.
pub open spec fn run_left(w: Seq<bool>, i: int, j: int) -> int
    decreases j,
{
    if j <= 0 {
        0
    } else if w[i * 5 + j - 1] {
        1 + run_left(w, i, j - 1)
    } else {
        0
    }
}

/// Contiguous filled cells of row `i` right of column `j`.
pub open spec fn run_right(w: Seq<bool>, i: int, j: int) -> int
    decreases 4 - j,
{
    if j >= 4 {
        0
    } else if w[i * 5 + j + 1] {
        1 + run_right(w, i, j + 1)
    } else {
        0
    }
}

/// Contiguous filled cells of column `j` above row `i`.
pub open spec fn run_up(w: Seq<bool>, i: int, j: int) -> int
    decreases i,
{
    if i <= 0 {
        0
    } else if w[(i - 1) * 5 + j] {
        1 + run_up(w, i - 1, j)
    } else {
        0
    }
}

/// Contiguous filled cells of column `j` below row `i`.
pub open spec fn run_down(w: Seq<bool>, i: int, j: int) -> int
    decreases 4 - i,
{
    if i >= 4 {
        0
    } else if w[(i + 1) * 5 + j] {
        1 + run_down(w, i + 1, j)
    } else {
        0
    }
}

/// Points for the tile on cell (i, j): the row and column runs through it,
/// each counted only when it reaches a neighbour; a lone tile is one point.
pub open spec fn cell_points(w: Seq<bool>, i: int, j: int) -> int {
    let h = 1 + run_left(w, i, j) + run_right(w, i, j);
    let v = 1 + run_up(w, i, j) + run_down(w, i, j);
    if h == 1 && v == 1 {
        1
    } else {
        (if h >= 2 {
            h
        } else {
            0int
        }) + (if v >= 2 {
            v
        } else {
            0int
        })
    }
}

/// The floor-line penalty: the first seven dropped tiles cost 1, 1, 2, 2, 2,
/// 3, 3 points in turn; tiles beyond the seventh cost nothing.
pub open spec fn floor_penalty_spec(len: int) -> int {
    if len <= 0 {
        0
    } else if len == 1 {
        1
    } else if len == 2 {
        2
    } else if len == 3 {
        4
    } else if len == 4 {
        6
    } else if len == 5 {
        8
    } else if len == 6 {
        11
    } else {
        14
    }
}

/// Discards from complete lines, summed over the five colors, are the removed
/// tiles less the one tile per line that moves onto the wall.
proof fn lemma_lines_trash_total(p: PlayerModel, u: int)
    requires
        p.wf(),
        0 <= u <= 5,
    ensures
        p.lines_trash_upto(0, u) + p.lines_trash_upto(1, u) + p.lines_trash_upto(2, u)
            + p.lines_trash_upto(3, u) + p.lines_trash_upto(4, u) == p.lines_removed_upto(u)
            - p.complete_count_upto(u),
    decreases u,
{
    if u > 0 {
        lemma_lines_trash_total(p, u - 1);
    }
}

/// Discards from the floor line, summed over the five colors, are exactly its
/// colored tiles.
proof fn lemma_floor_trash_total(f: Seq<Option<CeramicTile>>, u: int)
    requires
        0 <= u <= f.len(),
    ensures
        floor_trash_upto(f, 0, u) + floor_trash_upto(f, 1, u) + floor_trash_upto(f, 2, u)
            + floor_trash_upto(f, 3, u) + floor_trash_upto(f, 4, u) == floor_colored_upto(f, u),
    decreases u,
{
    if u > 0 {
        lemma_floor_trash_total(f, u - 1);
    }
}

/// Resolution leaves on the pattern lines exactly what it does not remove.
proof fn lemma_liq_lines_tiles(p: PlayerModel, u: int)
    requires
        p.lines.len() == 5,
        0 <= u <= 5,
    ensures
        lines_tiles_upto(p.liq_lines(), u) == lines_tiles_upto(p.lines, u)
            - p.lines_removed_upto(u),
    decreases u,
{
    if u > 0 {
        lemma_liq_lines_tiles(p, u - 1);
    }
}

/// What resolution discards from the lines is between zero and what the lines
/// hold.
proof fn lemma_removed_le_tiles(p: PlayerModel, u: int)
    requires
        0 <= u,
    ensures
        0 <= p.lines_removed_upto(u) - p.complete_count_upto(u),
        p.lines_removed_upto(u) - p.complete_count_upto(u) <= lines_tiles_upto(p.lines, u),
        0 <= p.complete_count_upto(u) <= u,
        0 <= lines_tiles_upto(p.lines, u),
    decreases u,
{
    if u > 0 {
        lemma_removed_le_tiles(p, u - 1);
    }
}

proof fn lemma_removed_mono(p: PlayerModel, a: int, b: int)
    requires
        0 <= a <= b,
    ensures
        p.lines_removed_upto(a) - p.complete_count_upto(a) <= p.lines_removed_upto(b)
            - p.complete_count_upto(b),
    decreases b - a,
{
    if a < b {
        lemma_removed_mono(p, a + 1, b);
    }
}

proof fn lemma_floor_colored_nonneg(f: Seq<Option<CeramicTile>>, u: int)
    ensures
        0 <= floor_colored_upto(f, u),
    decreases u,
{
    if u > 0 {
        lemma_floor_colored_nonneg(f, u - 1);
    }
}

proof fn lemma_floor_colored_mono(f: Seq<Option<CeramicTile>>, a: int, b: int)
    requires
        0 <= a <= b,
    ensures
        floor_colored_upto(f, a) <= floor_colored_upto(f, b),
    decreases b - a,
{
    if a < b {
        lemma_floor_colored_mono(f, a, b - 1);
    }
}

fn run_left_exec(wall: &Vec<bool>, i: usize, j: usize) -> (r: u32)
    requires
        wall@.len() == 25,
        i < 5,
        j < 5,
    ensures
        r == run_left(wall@, i as int, j as int),
        r <= j,
    decreases j,
{
    if j == 0 {
        0
    } else if wall[i * 5 + (j - 1)] {
        1 + run_left_exec(wall, i, j - 1)
    } else {
        0
    }
}

fn run_right_exec(wall: &Vec<bool>, i: usize, j: usize) -> (r: u32)
    requires
        wall@.len() == 25,
        i < 5,
        j < 5,
    ensures
        r == run_right(wall@, i as int, j as int),
        r <= 4 - j,
    decreases 4 - j,
{
    if j >= 4 {
        0
    } else if wall[i * 5 + j + 1] {
        1 + run_right_exec(wall, i, j + 1)
    } else {
        0
    }
}

fn run_up_exec(wall: &Vec<bool>, i: usize, j: usize) -> (r: u32)
    requires
        wall@.len() == 25,
        i < 5,
        j < 5,
    ensures
        r == run_up(wall@, i as int, j as int),
        r <= i,
    decreases i,
{
    if i == 0 {
        0
    } else if wall[(i - 1) * 5 + j] {
        1 + run_up_exec(wall, i - 1, j)
    } else {
        0
    }
}

fn run_down_exec(wall: &Vec<bool>, i: usize, j: usize) -> (r: u32)
    requires
        wall@.len() == 25,
        i < 5,
        j < 5,
    ensures
        r == run_down(wall@, i as int, j as int),
        r <= 4 - i,
    decreases 4 - i,
{
    if i >= 4 {
        0
    } else if wall[(i + 1) * 5 + j] {
        1 + run_down_exec(wall, i + 1, j)
    } else {
        0
    }
}

fn cell_points_exec(wall: &Vec<bool>, i: usize, j: usize) -> (r: u32)
    requires
        wall@.len() == 25,
        i < 5,
        j < 5,
    ensures
        r == cell_points(wall@, i as int, j as int),
        r <= 10,
{
    let h = 1 + run_left_exec(wall, i, j) + run_right_exec(wall, i, j);
    let v = 1 + run_up_exec(wall, i, j) + run_down_exec(wall, i, j);
    if h == 1 && v == 1 {
        1
    } else {
        (if h >= 2 {
            h
        } else {
            0
        }) + (if v >= 2 {
            v
        } else {
            0
        })
    }
}

fn floor_penalty_exec(len: usize) -> (r: u32)
    ensures
        r == floor_penalty_spec(len as int),
        r <= 14,
{
    if len == 0 {
        0
    } else if len == 1 {
        1
    } else if len == 2 {
        2
    } else if len == 3 {
        4
    } else if len == 4 {
        6
    } else if len == 5 {
        8
    } else if len == 6 {
        11
    } else {
        14
    }
}

fn wall_row_full(wall: &Vec<bool>, i: usize) -> (r: bool)
    requires
        wall@.len() == 25,
        i < 5,
    ensures
        r == row_full(wall@, i as int),
{
    let mut j: usize = 0;
    while j < 5
        invariant
            wall@.len() == 25,
            i < 5,
            j <= 5,
            forall|q: int| 0 <= q < j ==> #[trigger] wall@[i * 5 + q],
        decreases 5 - j,
    {
        if !wall[i * 5 + j] {
            return false;
        }
        j = j + 1;
    }
    true
}

fn wall_any_row_full(wall: &Vec<bool>) -> (r: bool)
    requires
        wall@.len() == 25,
    ensures
        r == exists|i: int| 0 <= i < 5 && row_full(wall@, i),
{
    let mut i: usize = 0;
    while i < 5
        invariant
            wall@.len() == 25,
            i <= 5,
            forall|q: int| 0 <= q < i ==> !row_full(wall@, q),
        decreases 5 - i,
    {
        if wall_row_full(wall, i) {
            return true;
        }
        i = i + 1;
    }
    false
}

proof fn lemma_lines_trash_none(p: PlayerModel, ci: int, u: int)
    requires
        0 <= u <= 5,
        forall|i: int| 0 <= i < 5 ==> !(#[trigger] p.line_complete(i)),
    ensures
        p.lines_trash_upto(ci, u) == 0,
    decreases u,
{
    if u > 0 {
        lemma_lines_trash_none(p, ci, u - 1);
    }
}

proof fn lemma_liq_points_none(p: PlayerModel, u: int)
    requires
        0 <= u <= 5,
        forall|i: int| 0 <= i < 5 ==> !(#[trigger] p.line_complete(i)),
    ensures
        p.liq_points_upto(u) == 0,
    decreases u,
{
    if u > 0 {
        lemma_liq_points_none(p, u - 1);
    }
}

proof fn lemma_lines_tiles_update(
    lines: Seq<(Option<CeramicTile>, u32)>,
    r: int,
    x: (Option<CeramicTile>, u32),
    u: int,
)
    requires
        0 <= r < lines.len(),
        0 <= u <= lines.len(),
    ensures
        lines_tiles_upto(lines.update(r, x), u) == lines_tiles_upto(lines, u) + if r < u {
            x.1 - lines[r].1
        } else {
            0int
        },
    decreases u,
{
    if u > 0 {
        lemma_lines_tiles_update(lines, r, x, u - 1);
    }
}

/// Two floor lines that agree on their first `u` slots count alike there.
proof fn lemma_floor_counts_agree(f: Seq<Option<CeramicTile>>, g: Seq<Option<CeramicTile>>, u: int)
    requires
        forall|q: int| 0 <= q < u ==> f[q] == g[q],
    ensures
        floor_colored_upto(f, u) == floor_colored_upto(g, u),
        floor_markers_upto(f, u) == floor_markers_upto(g, u),
    decreases u,
{
    if u > 0 {
        lemma_floor_counts_agree(f, g, u - 1);
    }
}

/// Appending colored tiles to the floor line adds to its colored count and
/// leaves its marker count alone.
proof fn lemma_floor_append_somes(f: Seq<Option<CeramicTile>>, n: int, c: CeramicTile)
    requires
        0 <= n,
    ensures
        floor_colored_upto(f + Seq::new(n as nat, |q: int| Some(c)), f.len() + n)
            == floor_colored_upto(f, f.len() as int) + n,
        floor_markers_upto(f + Seq::new(n as nat, |q: int| Some(c)), f.len() + n)
            == floor_markers_upto(f, f.len() as int),
    decreases n,
{
    let g = f + Seq::new(n as nat, |q: int| Some(c));
    if n == 0 {
        lemma_floor_counts_agree(f, g, f.len() as int);
    } else {
        let g1 = f + Seq::new((n - 1) as nat, |q: int| Some(c));
        lemma_floor_append_somes(f, n - 1, c);
        lemma_floor_counts_agree(g, g1, f.len() + n - 1);
        assert(g[f.len() + n - 1] == Some(c));
    }
}

pub proof fn lemma_player_tiles_nonneg(p: PlayerModel)
    ensures
        player_tiles(p) >= 0,
{
    lemma_removed_le_tiles(p, 5);
    lemma_floor_colored_nonneg(p.floor, p.floor.len() as int);
    lemma_wall_filled_bounds(p.wall, 25);
}

/// A fresh board holds no tiles and no marker.
pub proof fn lemma_fresh_counts(p: PlayerModel)
    requires
        p.fresh(),
    ensures
        player_tiles(p) == 0,
        floor_markers_upto(p.floor, p.floor.len() as int) == 0,
{
    assert(p.lines[0] == (None::<CeramicTile>, 0u32));
    assert(p.lines[1] == (None::<CeramicTile>, 0u32));
    assert(p.lines[2] == (None::<CeramicTile>, 0u32));
    assert(p.lines[3] == (None::<CeramicTile>, 0u32));
    assert(p.lines[4] == (None::<CeramicTile>, 0u32));
    assert(lines_tiles_upto(p.lines, 0) == 0);
    assert(lines_tiles_upto(p.lines, 1) == 0);
    assert(lines_tiles_upto(p.lines, 2) == 0);
    assert(lines_tiles_upto(p.lines, 3) == 0);
    assert(lines_tiles_upto(p.lines, 4) == 0);
    assert(lines_tiles_upto(p.lines, 5) == 0);
    lemma_wall_filled_all_false(p.wall, 25);
}

proof fn lemma_wall_filled_all_false(w: Seq<bool>, u: int)
    requires
        0 <= u <= w.len(),
        forall|k: int| 0 <= k < w.len() ==> !(#[trigger] w[k]),
    ensures
        wall_filled_upto(w, u) == 0,
    decreases u,
{
    if u > 0 {
        lemma_wall_filled_all_false(w, u - 1);
    }
}

/// Placing `n` tiles puts exactly `n` tiles onto the board, wherever they
/// land, and leaves the marker count of the floor line alone.
pub proof fn lemma_take_counts(p: PlayerModel, c: CeramicTile, n: u32, row: Option<usize>)
    requires
        p.wf(),
        p.can_put_spec(c, row),
    ensures
        player_tiles(p.take_spec(c, n, row)) == player_tiles(p) + n,
        floor_markers_upto(p.take_spec(c, n, row).floor, p.take_spec(c, n, row).floor.len() as int)
            == floor_markers_upto(p.floor, p.floor.len() as int),
{
    let p2 = p.take_spec(c, n, row);
    match row {
        None => {
            lemma_floor_append_somes(p.floor, n as int, c);
        },
        Some(r) => {
            let k = p.lines[r as int].1 as int;
            let cap = r as int + 1;
            let spill = if k + n <= cap {
                0int
            } else {
                k + n - cap
            };
            lemma_lines_tiles_update(p.lines, r as int, p2.lines[r as int], 5);
            lemma_floor_append_somes(p.floor, spill, c);
        },
    }
}

/// Dropping the first-player marker adds one marker and no tile.
pub proof fn lemma_marker_counts(p: PlayerModel)
    ensures
        floor_colored_upto(p.floor.push(None), p.floor.len() as int + 1) == floor_colored_upto(
            p.floor,
            p.floor.len() as int,
        ),
        floor_markers_upto(p.floor.push(None), p.floor.len() as int + 1) == floor_markers_upto(
            p.floor,
            p.floor.len() as int,
        ) + 1,
        player_tiles(PlayerModel { floor: p.floor.push(None), ..p }) == player_tiles(p),
{
    lemma_floor_counts_agree(p.floor.push(None), p.floor, p.floor.len() as int);
}

/// Law: resolving a board that one resolution has just left, untouched,
/// discards nothing and changes neither the board nor its end flag.
pub proof fn lemma_liquidate_idempotent(p: PlayerModel)
    requires
        p.lines.len() == 5,
        p.wall.len() == 25,
    ensures
        forall|ci: int| 0 <= ci < 5 ==> p.liq_board().liq_trash_at(ci) == 0,
        p.liq_board().liq_board() == p.liq_board(),
        p.liq_board().liq_end() == p.liq_end(),
{
    let p1 = p.liq_board();
    assert forall|i: int| 0 <= i < 5 implies !(#[trigger] p1.line_complete(i)) by {
        if p.line_complete(i) {
            assert(p1.lines[i] == (None::<CeramicTile>, 0u32));
        }
    }
    assert(p1.liq_wall() =~= p1.wall);
    assert(p1.liq_lines() =~= p1.lines);
    assert forall|ci: int| 0 <= ci < 5 implies p1.liq_trash_at(ci) == 0 by {
        lemma_lines_trash_none(p1, ci, 5);
        assert(floor_trash_upto(p1.floor, ci, 0) == 0);
    }
    lemma_liq_points_none(p1, 5);
    assert(p1.liq_score() == p1.score);
    assert(p1.liq_board() =~= p1);
}

/// Law: a resolution only ever fills wall cells, never clears one, so end
/// detection never reverts: once a resolution reports a full row, resolving
/// the board it left still does.
pub proof fn lemma_end_monotone(p: PlayerModel)
    requires
        p.lines.len() == 5,
        p.wall.len() == 25,
    ensures
        forall|k: int| 0 <= k < 25 ==> (p.wall[k] ==> #[trigger] p.liq_board().wall[k]),
        p.liq_end() ==> p.liq_board().liq_end(),
{
    lemma_liquidate_idempotent(p);
}

/// One player's board: staging pattern lines, the permanent wall, the penalty
/// floor line, and the running score.
#[verifier::ext_equal]
pub struct Player {
    pub name: String,
    pub lines: Vec<(Option<CeramicTile>, u32)>,
    pub wall: Vec<bool>,
    pub floor: Vec<Option<CeramicTile>>,
    pub score: u32,
}

impl View for Player {
    type V = PlayerModel;

    open spec fn view(&self) -> PlayerModel {
        PlayerModel {
            name: self.name@,
            lines: self.lines@,
            wall: self.wall@,
            floor: self.floor@,
            score: self.score,
        }
    }
}

impl Player {
    /// A fresh board: empty pattern lines, an unfilled wall, an empty floor
    /// line and a zero score.
    pub fn new(name: String) -> (p: Player)
        ensures
            p@.wf(),
            p@.fresh(),
            p@.name == name@,
    {
        let mut lines: Vec<(Option<CeramicTile>, u32)> = Vec::new();
        let mut i: usize = 0;
        while i < 5
            invariant
                lines@.len() == i,
                i <= 5,
                forall|q: int| 0 <= q < i ==> lines@[q] == (None::<CeramicTile>, 0u32),
            decreases 5 - i,
        {
            lines.push((None, 0u32));
            i = i + 1;
        }
        let mut wall: Vec<bool> = Vec::new();
        let mut k: usize = 0;
        while k < 25
            invariant
                wall@.len() == k,
                k <= 25,
                forall|q: int| 0 <= q < k ==> !wall@[q],
            decreases 25 - k,
        {
            wall.push(false);
            k = k + 1;
        }
        let p = Player { name, lines, wall, floor: Vec::new(), score: 0 };
        proof {
            lemma_wall_filled_bounds(p@.wall, 25);
        }
        p
    }

    /// Placement legality (exact): see `can_put_spec`.
    pub fn can_put(&self, ceramic_tile: CeramicTile, row: Option<usize>) -> (r: bool)
        requires
            self@.wf(),
        ensures
            r == self@.can_put_spec(ceramic_tile, row),
    {
        if let Some(row_n) = row {
            if row_n >= 5 {
                return false;
            }
            let (copt, cnt) = self.lines[row_n];
            if cnt > 0 {
                match copt {
                    Some(c0) => if c0 != ceramic_tile {
                        return false;
                    },
                    None => {
                        return false;
                    },
                }
            }
            let j = wall_col(row_n, ceramic_tile);
            if self.wall[row_n * 5 + j] {
                return false;
            }
        }
        true
    }

    /// Drops the first-player marker onto the floor line.
    pub fn set_first(&mut self)
        requires
            old(self)@.wf(),
        ensures
            final(self)@.wf(),
            final(self)@ == (PlayerModel { floor: old(self)@.floor.push(None), ..old(self)@ }),
    {
        self.floor.push(None);
        proof {
            assert(self@ =~= (PlayerModel { floor: old(self)@.floor.push(None), ..old(self)@ }));
        }
    }

    /// Places `n` tiles of one color: the chosen pattern line fills up to its
    /// capacity `row + 1`, every further tile drops onto the floor line.
    pub fn take(&mut self, ceramic_tile: CeramicTile, n: u32, row: Option<usize>)
        requires
            old(self)@.wf(),
            old(self)@.can_put_spec(ceramic_tile, row),
        ensures
            final(self)@.wf(),
            final(self)@ == old(self)@.take_spec(ceramic_tile, n, row),
    {
        let left: u32;
        if let Some(row_n) = row {
            let max_size = row_n as u32 + 1;
            let cur = self.lines[row_n].1;
            if n > max_size - cur {
                left = n - (max_size - cur);
                self.lines[row_n] = (Some(ceramic_tile), max_size);
            } else {
                left = 0;
                self.lines[row_n] = (Some(ceramic_tile), cur + n);
            }
        } else {
            left = n;
        }
        let ghost mid = self@;
        let ghost target = old(self)@.take_spec(ceramic_tile, n, row);
        let mut q: u32 = 0;
        while q < left
            invariant
                q <= left,
                self@ == (PlayerModel {
                    floor: mid.floor + Seq::new(q as nat, |t: int| Some(ceramic_tile)),
                    ..mid
                }),
            decreases left - q,
        {
            self.floor.push(Some(ceramic_tile));
            q = q + 1;
            proof {
                assert(self@.floor =~= mid.floor + Seq::new(q as nat, |t: int| Some(ceramic_tile)));
                assert(self@ =~= (PlayerModel {
                    floor: mid.floor + Seq::new(q as nat, |t: int| Some(ceramic_tile)),
                    ..mid
                }));
            }
        }
        proof {
            assert(self@ =~= target);
        }
    }

    /// End-of-round resolution: every complete pattern line puts one tile on
    /// the wall cell of its color and discards the rest; the floor line is
    /// discarded (the first-player marker with it, without a tile); the score
    /// grows by the points of each placed tile and shrinks by the floor
    /// penalty, never below zero. Returns the discarded tiles and whether the
    /// wall now has a complete row, which ends the match.
    pub fn liquidate(&mut self) -> (r: (TileBag, bool))
        requires
            old(self)@.wf(),
            player_tiles(old(self)@) <= u32::MAX,
        ensures
            final(self)@.wf(),
            r.0.wf(),
            final(self)@ == old(self)@.liq_board(),
            forall|ci: int| 0 <= ci < 5 ==> r.0@[ci] == old(self)@.liq_trash_at(ci),
            r.1 == old(self)@.liq_end(),
            player_tiles(final(self)@) + r.0.total() == player_tiles(old(self)@),
            forall|k: int| 0 <= k < 25 ==> (old(self)@.wall[k] ==> final(self)@.wall[k]),
    {
        let ghost p0 = self@;
        let pen = floor_penalty_exec(self.floor.len());
        // Move one tile of every complete line onto the wall.
        let mut i: usize = 0;
        while i < 5
            invariant
                p0.wf(),
                self@.lines == p0.lines,
                self@.name == p0.name,
                self@.floor == p0.floor,
                self@.score == p0.score,
                self@.wall.len() == 25,
                i <= 5,
                forall|k: int|
                    0 <= k < 25 ==> self@.wall[k] == (p0.wall[k] || (k / 5 < i
                        && p0.line_complete(k / 5) && p0.lines[k / 5].0 is Some && k % 5
                        == wall_col_spec(k / 5, p0.lines[k / 5].0.unwrap()))),
                wall_filled_upto(self@.wall, 25) == wall_filled_upto(p0.wall, 25)
                    + p0.complete_count_upto(i as int),
            decreases 5 - i,
        {
            let (copt, cnt) = self.lines[i];
            if cnt as usize == i + 1 {
                let c = copt.unwrap();
                let j = wall_col(i, c);
                proof {
                    assert((i * 5 + j) / 5 == i as int && (i * 5 + j) % 5 == j as int);
                    assert(!self@.wall[i * 5 + j]);
                    lemma_wall_filled_update(self@.wall, i * 5 + j, 25);
                }
                self.wall[i * 5 + j] = true;
            }
            i = i + 1;
        }
        proof {
            assert(self@.wall =~= p0.liq_wall());
        }
        // Score every tile just placed, on the resolved wall.
        let mut delta: u32 = 0;
        let mut i2: usize = 0;
        while i2 < 5
            invariant
                p0.wf(),
                self@.lines == p0.lines,
                self@.wall == p0.liq_wall(),
                self@.wall.len() == 25,
                i2 <= 5,
                delta == p0.liq_points_upto(i2 as int),
                delta <= 10 * p0.complete_count_upto(i2 as int),
            decreases 5 - i2,
        {
            let (copt, cnt) = self.lines[i2];
            if cnt as usize == i2 + 1 {
                let c = copt.unwrap();
                let j = wall_col(i2, c);
                let pts = cell_points_exec(&self.wall, i2, j);
                proof {
                    lemma_removed_le_tiles(p0, i2 as int);
                }
                delta = delta + pts;
            }
            i2 = i2 + 1;
        }
        // Discard the rest of every complete line and clear it.
        let mut trash = TileBag::new();
        let mut i3: usize = 0;
        while i3 < 5
            invariant
                p0.wf(),
                trash.wf(),
                player_tiles(p0) <= u32::MAX,
                self@.wall == p0.liq_wall(),
                self@.name == p0.name,
                self@.floor == p0.floor,
                self@.score == p0.score,
                self@.lines.len() == 5,
                i3 <= 5,
                forall|q: int|
                    0 <= q < 5 ==> #[trigger] self@.lines[q] == if q < i3 && p0.line_complete(q) {
                        (None::<CeramicTile>, 0u32)
                    } else {
                        p0.lines[q]
                    },
                forall|ci: int| 0 <= ci < 5 ==> trash@[ci] == p0.lines_trash_upto(ci, i3 as int),
                trash.total() == p0.lines_removed_upto(i3 as int) - p0.complete_count_upto(
                    i3 as int,
                ),
            decreases 5 - i3,
        {
            let (copt, cnt) = self.lines[i3];
            proof {
                assert(self@.lines[i3 as int] == p0.lines[i3 as int]);
            }
            if cnt as usize == i3 + 1 {
                proof {
                    assert(p0.lines[i3 as int].1 > 0);
                }
                let c = copt.unwrap();
                proof {
                    lemma_removed_mono(p0, i3 + 1, 5);
                    lemma_removed_le_tiles(p0, 5);
                    lemma_floor_colored_nonneg(p0.floor, p0.floor.len() as int);
                    lemma_wall_filled_bounds(p0.wall, 25);
                }
                trash.add(c, cnt - 1);
                self.lines[i3] = (None, 0u32);
            }
            i3 = i3 + 1;
        }
        // Discard the floor line; the marker leaves no tile behind.
        let mut t: usize = 0;
        while t < self.floor.len()
            invariant
                p0.wf(),
                trash.wf(),
                player_tiles(p0) <= u32::MAX,
                self@.wall == p0.liq_wall(),
                self@.floor == p0.floor,
                self@.lines == p0.liq_lines(),
                self@.name == p0.name,
                self@.score == p0.score,
                t <= p0.floor.len(),
                forall|ci: int|
                    0 <= ci < 5 ==> trash@[ci] == p0.lines_trash_upto(ci, 5) + floor_trash_upto(
                        p0.floor,
                        ci,
                        t as int,
                    ),
                trash.total() == p0.lines_removed_upto(5) - p0.complete_count_upto(5)
                    + floor_colored_upto(p0.floor, t as int),
            decreases p0.floor.len() - t,
        {
            let slot = self.floor[t];
            if let Some(c) = slot {
                proof {
                    lemma_removed_le_tiles(p0, 5);
                    lemma_floor_colored_mono(p0.floor, t + 1, p0.floor.len() as int);
                    lemma_wall_filled_bounds(p0.wall, 25);
                }
                trash.add(c, 1);
            }
            t = t + 1;
        }
        self.floor = Vec::new();
        // Apply the score delta and the floor penalty.
        proof {
            lemma_wall_filled_bounds(p0.wall, 25);
            lemma_removed_le_tiles(p0, 5);
        }
        let new_score = self.score + delta;
        self.score = if new_score >= pen {
            new_score - pen
        } else {
            0
        };
        let is_end = wall_any_row_full(&self.wall);
        proof {
            assert(self@.lines =~= p0.liq_lines());
            assert(self@.floor =~= Seq::<Option<CeramicTile>>::empty());
            assert(self@ =~= p0.liq_board());
            lemma_liq_lines_tiles(p0, 5);
            lemma_lines_trash_total(p0, 5);
            lemma_floor_trash_total(p0.floor, p0.floor.len() as int);
            assert(floor_colored_upto(self@.floor, 0) == 0);
        }
        (trash, is_end)
    }
}

} // verus!
