//! Tiles and the immutable grid they form.
use vstd::prelude::*;
use vstd::string::*;
use crate::rng::choose_cell;
use crate::utils::{point_offsets, point_offsets_spec};

verus! {

/// What stands on one cell of the grid.
#[derive(Debug, Clone, Copy, PartialEq, Eq, Structural)]
pub enum TileVariant {
    WALL_SIDE,
    WALL_TOP,
    GROUND,
}

/// Why a level description was refused.
#[derive(Debug, Clone, Copy, PartialEq, Eq, Structural)]
pub enum MapError {
    /// A row or column index would not fit the coordinate type.
    TooLarge,
    /// No cell is ground, so nobody could ever spawn.
    NoGround,
}

/// The tile that a symbol of a level description stands for.
pub open spec fn symbol_tile(c: char) -> TileVariant {
    if c == 'S' {
        TileVariant::WALL_SIDE
    } else if c == 'T' {
        TileVariant::WALL_TOP
    } else {
        TileVariant::GROUND
    }
}

/// Number of characters before the first line feed (all of them if there is none).
pub open spec fn first_newline(s: Seq<char>) -> nat
    decreases s.len(),
{
    if s.len() == 0 || s[0] == '\n' {
        0
    } else {
        1 + first_newline(s.drop_first())
    }
}

/// A line without the carriage return that may precede its line feed.
pub open spec fn strip_cr(line: Seq<char>) -> Seq<char> {
    if line.len() > 0 && line.last() == '\r' {
        line.drop_last()
    } else {
        line
    }
}

/// The lines of a text. A line ends at a line feed, or at a carriage return
/// followed by one; a last line without line feed counts if it is not empty.
pub open spec fn text_rows(s: Seq<char>) -> Seq<Seq<char>>
    decreases s.len(),
{
    if s.len() == 0 {
        Seq::empty()
    } else {
        let i = first_newline(s);
        if i >= s.len() {
            seq![s]
        } else {
            seq![strip_cr(s.subrange(0, i as int))] + text_rows(
                s.subrange(i as int + 1, s.len() as int),
            )
        }
    }
}

/// The grid that a level description denotes: one row per line, one tile per character.
pub open spec fn parse_grid(s: Seq<char>) -> Seq<Seq<TileVariant>> {
    text_rows(s).map_values(|row: Seq<char>| row.map_values(|c: char| symbol_tile(c)))
}

/// Every row and column index of the grid fits an `i32`.
pub open spec fn grid_fits(g: Seq<Seq<TileVariant>>) -> bool {
    &&& g.len() <= i32::MAX
    &&& forall|y: int| 0 <= y < g.len() ==> (#[trigger] g[y]).len() <= i32::MAX
}

/// The tile at column `x` of row `y`, if the grid has such a cell.
pub open spec fn grid_tile(g: Seq<Seq<TileVariant>>, x: int, y: int) -> Option<TileVariant> {
    if 0 <= y < g.len() && 0 <= x < g[y].len() {
        Some(g[y][x])
    } else {
        None
    }
}

/// Some cell of the grid is ground.
pub open spec fn grid_has_ground(g: Seq<Seq<TileVariant>>) -> bool {
    exists|x: int, y: int| grid_tile(g, x, y) == Some(TileVariant::GROUND)
}

/// The first line feed is where a scan that has seen none so far meets one.
pub proof fn lemma_first_newline(s: Seq<char>, i: int)
    requires
        0 <= i <= s.len(),
        forall|j: int| 0 <= j < i ==> s[j] != '\n',
        i == s.len() || s[i] == '\n',
    ensures
        first_newline(s) == i,
    decreases i,
{
    if i > 0 {
        let t = s.drop_first();
        assert forall|j: int| 0 <= j < i - 1 implies t[j] != '\n' by {
            assert(t[j] == s[j + 1]);
        }
        lemma_first_newline(t, i - 1);
    }
}

/// The tile that a symbol of a level description stands for.
pub fn tile_of_symbol(c: char) -> (t: TileVariant)
    ensures
        t == symbol_tile(c),
{
    if c == 'S' {
        TileVariant::WALL_SIDE
    } else if c == 'T' {
        TileVariant::WALL_TOP
    } else {
        TileVariant::GROUND
    }
}

/// The characters of a string, one by one.
fn chars_of(s: &str) -> (r: Vec<char>)
    ensures
        r@ == s@,
{
    let mut v: Vec<char> = Vec::new();
    for c in it: s.chars()
        invariant
            it.seq() == s@,
            v@ == it.seq().take(it.index() as int),
    {
        v.push(c);
        assert(v@ =~= it.seq().take(it.index() + 1));
    }
    assert(v@ =~= s@);
    v
}

/// The immutable tile grid of a level. A cell is addressed by column `x`
/// and row `y`; a coordinate outside every row has no tile.
#[derive(Debug, Clone, PartialEq, Eq)]
pub struct GameMap {
    rows: Vec<Vec<TileVariant>>,
}

impl GameMap {
    /// The rows of the grid, top to bottom.
    pub closed spec fn grid(&self) -> Seq<Seq<TileVariant>> {
        Seq::new(self.rows@.len(), |y: int| self.rows@[y]@)
    }

    /// The tile at `(x, y)`, if the grid has such a cell.
    pub open spec fn tile_at_spec(&self, x: int, y: int) -> Option<TileVariant> {
        grid_tile(self.grid(), x, y)
    }

    /// A usable level: every index fits the coordinate type and some cell is ground.
    pub open spec fn wf(&self) -> bool {
        grid_fits(self.grid()) && grid_has_ground(self.grid())
    }

    /// Reads a level description: one line per row, one character per column,
    /// `S` a wall side, `T` a wall top, anything else ground.
    pub fn load(source: &str) -> (r: Result<GameMap, MapError>)
        ensures
            r == Err::<GameMap, MapError>(MapError::TooLarge) <==> !grid_fits(parse_grid(source@)),
            r == Err::<GameMap, MapError>(MapError::NoGround) <==> grid_fits(parse_grid(source@))
                && !grid_has_ground(parse_grid(source@)),
            r matches Ok(m) ==> m.wf() && m.grid() == parse_grid(source@),
    {
        let chars = chars_of(source);
        let map = GameMap { rows: rows_of_chars(&chars) };
        assert(map.grid() =~= parse_grid(source@));
        if !map.fits() {
            return Err(MapError::TooLarge);
        }
        let ground = map.get_ground();
        if ground.len() == 0 {
            assert(!grid_has_ground(map.grid())) by {
                if grid_has_ground(map.grid()) {
                    let (x, y) = choose|x: int, y: int|
                        grid_tile(map.grid(), x, y) == Some(TileVariant::GROUND);
                    assert(map.tile_at_spec(x, y) == Some(TileVariant::GROUND));
                    assert(ground@.contains((x as i32, y as i32)));
                }
            }
            return Err(MapError::NoGround);
        }
        assert(grid_has_ground(map.grid())) by {
            let c = ground@[0];
            assert(map.tile_at_spec(c.0 as int, c.1 as int) == Some(TileVariant::GROUND));
        }
        Ok(map)
    }

    /// Whether every row and column index fits an `i32`.
    pub fn fits(&self) -> (b: bool)
        ensures
            b == grid_fits(self.grid()),
    {
        if self.rows.len() > i32::MAX as usize {
            return false;
        }
        let mut y: usize = 0;
        while y < self.rows.len()
            invariant
                y <= self.rows@.len(),
                self.rows@.len() <= i32::MAX,
                forall|k: int| 0 <= k < y ==> (#[trigger] self.grid()[k]).len() <= i32::MAX,
            decreases self.rows@.len() - y,
        {
            if self.rows[y].len() > i32::MAX as usize {
                assert(self.grid()[y as int].len() > i32::MAX);
                return false;
            }
            y += 1;
        }
        true
    }

    /// The tile at `(x, y)`, or `None` where the grid has no such cell.
    pub fn tile_at(&self, x: i32, y: i32) -> (r: Option<TileVariant>)
        ensures
            r == self.tile_at_spec(x as int, y as int),
    {
        self.tile_at_wide(x as i64, y as i64)
    }

    /// The tile at a coordinate that need not fit the cell type.
    pub fn tile_at_wide(&self, x: i64, y: i64) -> (r: Option<TileVariant>)
        ensures
            r == self.tile_at_spec(x as int, y as int),
    {
        if y < 0 || x < 0 {
            return None;
        }
        if (y as u64) < self.rows.len() as u64 && (x as u64) < self.rows[y as usize].len() as u64 {
            Some(self.rows[y as usize][x as usize])
        } else {
            None
        }
    }

    /// The tiles of the eight cells around `(x, y)`, in the order of the
    /// neighbour offsets. A neighbour outside the grid has none.
    pub fn neighbors_of(&self, x: i32, y: i32) -> (r: [Option<TileVariant>; 8])
        ensures
            forall|i: int|
                0 <= i < 8 ==> #[trigger] r@[i] == self.tile_at_spec(
                    x + point_offsets_spec()[i].0,
                    y + point_offsets_spec()[i].1,
                ),
    {
        let offsets = point_offsets();
        let mut out: [Option<TileVariant>; 8] = [None; 8];
        let mut i: usize = 0;
        while i < 8
            invariant
                i <= 8,
                offsets@.len() == 8,
                forall|k: int|
                    0 <= k < 8 ==> (#[trigger] offsets@[k]).0 as int == point_offsets_spec()[k].0
                        && offsets@[k].1 as int == point_offsets_spec()[k].1,
                forall|k: int|
                    0 <= k < i ==> #[trigger] out@[k] == self.tile_at_spec(
                        x + point_offsets_spec()[k].0,
                        y + point_offsets_spec()[k].1,
                    ),
            decreases 8 - i,
        {
            let (dx, dy) = offsets[i];
            assert(offsets@[i as int].0 as int == point_offsets_spec()[i as int].0);
            assert(-1 <= point_offsets_spec()[i as int].0 <= 1);
            assert(-1 <= point_offsets_spec()[i as int].1 <= 1);
            let nx: i64 = x as i64 + dx as i64;
            let ny: i64 = y as i64 + dy as i64;
            let tile = self.tile_at_wide(nx, ny);
            out[i] = tile;
            i += 1;
        }
        out
    }

    /// Every ground cell, row by row from the top and left to right within a row.
    pub fn get_ground(&self) -> (r: Vec<(i32, i32)>)
        requires
            grid_fits(self.grid()),
        ensures
            forall|k: int|
                0 <= k < r@.len() ==> self.tile_at_spec((#[trigger] r@[k]).0 as int, r@[k].1 as int)
                    == Some(TileVariant::GROUND),
            forall|x: int, y: int|
                self.tile_at_spec(x, y) == Some(TileVariant::GROUND) ==> r@.contains(
                    (x as i32, y as i32),
                ),
            forall|j: int, k: int|
                0 <= j < k < r@.len() ==> r@[j].1 < r@[k].1 || (r@[j].1 == r@[k].1 && r@[j].0
                    < r@[k].0),
    {
        let mut out: Vec<(i32, i32)> = Vec::new();
        let mut y: usize = 0;
        while y < self.rows.len()
            invariant
                grid_fits(self.grid()),
                y <= self.rows@.len(),
                forall|k: int|
                    0 <= k < out@.len() ==> self.tile_at_spec(
                        (#[trigger] out@[k]).0 as int,
                        out@[k].1 as int,
                    ) == Some(TileVariant::GROUND) && out@[k].1 < y,
                forall|cx: int, cy: int|
                    cy < y && self.tile_at_spec(cx, cy) == Some(TileVariant::GROUND)
                        ==> out@.contains((cx as i32, cy as i32)),
                forall|j: int, k: int|
                    0 <= j < k < out@.len() ==> out@[j].1 < out@[k].1 || (out@[j].1 == out@[k].1
                        && out@[j].0 < out@[k].0),
            decreases self.rows@.len() - y,
        {
            let mut x: usize = 0;
            assert(self.grid()[y as int].len() <= i32::MAX);
            while x < self.rows[y].len()
                invariant
                    grid_fits(self.grid()),
                    y < self.rows@.len(),
                    x <= self.rows@[y as int]@.len() <= i32::MAX,
                    forall|k: int|
                        0 <= k < out@.len() ==> self.tile_at_spec(
                            (#[trigger] out@[k]).0 as int,
                            out@[k].1 as int,
                        ) == Some(TileVariant::GROUND) && (out@[k].1 < y || (out@[k].1 == y
                            && out@[k].0 < x)),
                    forall|cx: int, cy: int|
                        (cy < y || (cy == y && cx < x)) && self.tile_at_spec(cx, cy) == Some(
                            TileVariant::GROUND,
                        ) ==> out@.contains((cx as i32, cy as i32)),
                    forall|j: int, k: int|
                        0 <= j < k < out@.len() ==> out@[j].1 < out@[k].1 || (out@[j].1
                            == out@[k].1 && out@[j].0 < out@[k].0),
                decreases self.rows@[y as int]@.len() - x,
            {
                if self.rows[y][x] == TileVariant::GROUND {
                    let ghost before = out@;
                    out.push((x as i32, y as i32));
                    assert forall|cx: int, cy: int|
                        (cy < y || (cy == y && cx < x + 1)) && self.tile_at_spec(cx, cy) == Some(
                            TileVariant::GROUND,
                        ) implies out@.contains((cx as i32, cy as i32)) by {
                        if cy == y && cx == x {
                            assert(out@[out@.len() - 1] == (x as i32, y as i32));
                        } else {
                            assert(before.contains((cx as i32, cy as i32)));
                            let k = choose|k: int|
                                0 <= k < before.len() && before[k] == (cx as i32, cy as i32);
                            assert(out@[k] == (cx as i32, cy as i32));
                        }
                    }
                }
                x += 1;
            }
            y += 1;
        }
        out
    }

    /// A ground cell drawn at random, each with the same chance.
    pub fn get_random_spawn_position(&self) -> (r: (i32, i32))
        requires
            self.wf(),
        ensures
            self.tile_at_spec(r.0 as int, r.1 as int) == Some(TileVariant::GROUND),
    {
        let ground = self.get_ground();
        proof {
            let (x, y) = choose|x: int, y: int|
                grid_tile(self.grid(), x, y) == Some(TileVariant::GROUND);
            assert(self.tile_at_spec(x, y) == Some(TileVariant::GROUND));
            assert(ground@.contains((x as i32, y as i32)));
        }
        match choose_cell(&ground) {
            Some(cell) => cell,
            None => ground[0],
        }
    }

    /// Every cell with its tile, row by row from the top and left to right
    /// within a row.
    pub open spec fn snapshot(&self) -> Seq<((i32, i32), TileVariant)> {
        snapshot_rows(self.grid(), self.grid().len())
    }

    /// A usable level has a ground cell that the cell type can name.
    pub proof fn lemma_ground_cell_exists(&self)
        requires
            self.wf(),
        ensures
            exists|c: (i32, i32)|
                #[trigger] self.tile_at_spec(c.0 as int, c.1 as int) == Some(TileVariant::GROUND),
    {
        let (x, y) = choose|x: int, y: int|
            grid_tile(self.grid(), x, y) == Some(TileVariant::GROUND);
        assert(self.grid()[y].len() <= i32::MAX);
        let c = (x as i32, y as i32);
        assert(self.tile_at_spec(c.0 as int, c.1 as int) == Some(TileVariant::GROUND));
    }

    /// Every cell with its tile: the content of a map snapshot.
    pub fn entries(&self) -> (r: Vec<((i32, i32), TileVariant)>)
        requires
            grid_fits(self.grid()),
        ensures
            r@ == self.snapshot(),
    {
        let ghost g = self.grid();
        let mut out: Vec<((i32, i32), TileVariant)> = Vec::new();
        let mut y: usize = 0;
        while y < self.rows.len()
            invariant
                g == self.grid(),
                grid_fits(g),
                y <= self.rows@.len(),
                out@ == snapshot_rows(g, y as nat),
            decreases self.rows@.len() - y,
        {
            let mut x: usize = 0;
            assert(g[y as int].len() <= i32::MAX);
            assert(out@ =~= snapshot_rows(g, y as nat) + row_entries(g[y as int], y as int).subrange(
                0,
                0,
            ));
            while x < self.rows[y].len()
                invariant
                    g == self.grid(),
                    y < self.rows@.len(),
                    x <= self.rows@[y as int]@.len() <= i32::MAX,
                    out@ == snapshot_rows(g, y as nat) + row_entries(
                        g[y as int],
                        y as int,
                    ).subrange(0, x as int),
                decreases self.rows@[y as int]@.len() - x,
            {
                out.push(((x as i32, y as i32), self.rows[y][x]));
                assert(out@ =~= snapshot_rows(g, y as nat) + row_entries(
                    g[y as int],
                    y as int,
                ).subrange(0, x + 1));
                x += 1;
            }
            assert(row_entries(g[y as int], y as int).subrange(0, x as int) =~= row_entries(
                g[y as int],
                y as int,
            ));
            y += 1;
        }
        out
    }
}

/// The cells of row `y` with their tiles, left to right.
pub open spec fn row_entries(row: Seq<TileVariant>, y: int) -> Seq<((i32, i32), TileVariant)> {
    Seq::new(row.len(), |x: int| ((x as i32, y as i32), row[x]))
}

/// The cells of the first `n` rows with their tiles, row by row.
pub open spec fn snapshot_rows(g: Seq<Seq<TileVariant>>, n: nat) -> Seq<((i32, i32), TileVariant)>
    decreases n,
{
    if n == 0 {
        Seq::empty()
    } else {
        snapshot_rows(g, (n - 1) as nat) + row_entries(g[n - 1], n - 1)
    }
}

/// Cuts a text into lines and turns every character into its tile.
fn rows_of_chars(chars: &Vec<char>) -> (rows: Vec<Vec<TileVariant>>)
    ensures
        Seq::new(rows@.len(), |y: int| rows@[y]@) == parse_grid(chars@),
{
    let ghost s = chars@;
    let n = chars.len();
    let mut rows: Vec<Vec<TileVariant>> = Vec::new();
    let mut cur: Vec<TileVariant> = Vec::new();
    let mut start: usize = 0;
    let mut i: usize = 0;
    proof {
        assert(s.subrange(0, n as int) =~= s);
        assert(Seq::new(rows@.len(), |y: int| rows@[y]@) + parse_grid(s) =~= parse_grid(s));
    }
    while i < n
        invariant
            s == chars@,
            n == s.len(),
            start <= i <= n,
            forall|j: int| start <= j < i ==> s[j] != '\n',
            cur@ == s.subrange(start as int, i as int).map_values(|c: char| symbol_tile(c)),
            parse_grid(s) == Seq::new(rows@.len(), |y: int| rows@[y]@) + parse_grid(
                s.subrange(start as int, n as int),
            ),
        decreases n - i,
    {
        let c = chars[i];
        let ghost rest = s.subrange(start as int, n as int);
        let ghost done = Seq::new(rows@.len(), |y: int| rows@[y]@);
        if c == '\n' {
            let ghost line = s.subrange(start as int, i as int);
            proof {
                assert forall|j: int| 0 <= j < i - start implies rest[j] != '\n' by {
                    assert(rest[j] == s[start + j]);
                }
                lemma_first_newline(rest, i - start);
                assert(rest.subrange(0, i - start) =~= line);
                assert(rest.subrange(i - start + 1, rest.len() as int) =~= s.subrange(
                    i + 1,
                    n as int,
                ));
            }
            if i > start && chars[i - 1] == '\r' {
                cur.pop();
                assert(line.last() == '\r');
            }
            assert(cur@ =~= strip_cr(line).map_values(|c: char| symbol_tile(c)));
            let ghost row = cur@;
            rows.push(cur);
            cur = Vec::new();
            start = i + 1;
            proof {
                let tail = s.subrange(i + 1, n as int);
                assert(text_rows(rest) == seq![strip_cr(line)] + text_rows(tail));
                assert(parse_grid(rest) =~= seq![row] + parse_grid(tail));
                assert(Seq::new(rows@.len(), |y: int| rows@[y]@) =~= done + seq![row]);
                assert(parse_grid(s) =~= Seq::new(rows@.len(), |y: int| rows@[y]@) + parse_grid(
                    tail,
                ));
                assert(cur@ =~= s.subrange(start as int, i + 1).map_values(
                    |c: char| symbol_tile(c),
                ));
            }
        } else {
            cur.push(tile_of_symbol(c));
            assert(cur@ =~= s.subrange(start as int, i + 1).map_values(|c: char| symbol_tile(c)));
        }
        i += 1;
    }
    let ghost rest = s.subrange(start as int, n as int);
    let ghost done = Seq::new(rows@.len(), |y: int| rows@[y]@);
    if start < n {
        proof {
            assert forall|j: int| 0 <= j < n - start implies rest[j] != '\n' by {
                assert(rest[j] == s[start + j]);
            }
            lemma_first_newline(rest, n - start);
            assert(text_rows(rest) == seq![rest]);
            assert(parse_grid(rest) =~= seq![cur@]);
        }
        let ghost row = cur@;
        rows.push(cur);
        assert(Seq::new(rows@.len(), |y: int| rows@[y]@) =~= done + seq![row]);
    } else {
        assert(rest.len() == 0);
        assert(parse_grid(rest) =~= Seq::empty());
        assert(parse_grid(s) =~= done);
    }
    rows
}

} // verus!
