use vstd::prelude::*;
use vstd::arithmetic::div_mod::lemma_fundamental_div_mod_converse;
use vstd::string::StringExecFns;

verus! {

/// A `W` by `H` matrix of cells, stored row-major: the cell in row `y` and
/// column `x` sits at index `y * W + x`. Dimensions never change.
#[derive(Debug)]
pub struct Grid<const W: usize, const H: usize> {
    cells: Vec<bool>,
}

impl<const W: usize, const H: usize> Clone for Grid<W, H> {
    fn clone(&self) -> (r: Self)
        ensures
            r@ == self@,
    {
        proof { use_type_invariant(self); }
        let cells = self.cells.clone();
        assert(cells@ =~= self.cells@);
        Grid { cells }
    }
}

impl<const W: usize, const H: usize> PartialEq for Grid<W, H> {
    fn eq(&self, other: &Self) -> (r: bool)
        ensures
            r == (self@ == other@),
    {
        proof {
            use_type_invariant(self);
            use_type_invariant(other);
        }
        let mut i: usize = 0;
        while i < self.cells.len()
            invariant
                self.cells@.len() == other.cells@.len(),
                i <= self.cells@.len(),
                forall|k: int| 0 <= k < i ==> self.cells@[k] == other.cells@[k],
            decreases self.cells@.len() - i,
        {
            if self.cells[i] != other.cells[i] {
                return false;
            }
            i = i + 1;
        }
        assert(self.cells@ =~= other.cells@);
        true
    }
}

impl<const W: usize, const H: usize> vstd::std_specs::cmp::PartialEqSpecImpl for Grid<W, H> {
    open spec fn obeys_eq_spec() -> bool {
        true
    }

    open spec fn eq_spec(&self, other: &Self) -> bool {
        self@ == other@
    }
}

impl<const W: usize, const H: usize> View for Grid<W, H> {
    type V = Seq<bool>;

    /// The cells, row after row.
    closed spec fn view(&self) -> Seq<bool> {
        self.cells@
    }
}

/// The number of cells of a `W` by `H` grid.
pub open spec fn area(w: usize, h: usize) -> int {
    w as int * h as int
}

/// A grid together with the generation that comes after it. Each call of
/// [`GridIter::next`] moves one generation forward; the sequence never ends.
pub struct GridIter<const W: usize, const H: usize> {
    grid: Grid<W, H>,
}

impl<const W: usize, const H: usize> GridIter<W, H> {
    /// The generation that the next call steps from.
    pub closed spec fn current(&self) -> Grid<W, H> {
        self.grid
    }

    /// Moves one generation forward and returns the new generation, which
    /// the iterator keeps as its own state; always `Some`.
    pub fn next(&mut self) -> (r: Option<Grid<W, H>>)
        ensures
            r is Some,
            r->0.wf(),
            r->0@ == old(self).current().next_gen(),
            final(self).current()@ == r->0@,
    {
        let g = self.grid.step();
        self.grid = g.clone();
        Some(g)
    }
}

/// Why a flat sequence of cells did not decode into a grid.
#[derive(Debug, Clone, Copy, PartialEq, Eq, Structural)]
pub enum DecodeError {
    /// More than `W * H` values were given.
    TooManyElements,
    /// Fewer than `W * H` values were given.
    NotEnoughElements,
}

/// Relies on rand's `thread_rng().fill`, which sets each `bool` of a slice
/// from the thread-local generator and leaves the slice's length alone.
#[verifier::external_body]
fn random_cells(n: usize) -> (r: Vec<bool>)
    ensures
        r@.len() == n,
{
    let mut cells = vec![false; n];
    rand::Rng::fill(&mut rand::thread_rng(), &mut cells[..]);
    cells
}

/// The text of a border line: `open`, `w` times `=`, then `close`.
pub open spec fn border(open: char, close: char, w: nat) -> Seq<char> {
    seq![open] + Seq::new(w, |i: int| '=') + seq![close]
}

/// The character that shows a cell.
pub open spec fn glyph(alive: bool) -> char {
    if alive { 'X' } else { ' ' }
}

/// `n + 1`, or `None` where it does not fit in a `usize`.
fn inc(n: usize) -> (r: Option<usize>)
    ensures
        r == (if n < usize::MAX { Some((n + 1) as usize) } else { None::<usize> }),
{
    n.checked_add(1)
}

/// `n - 1`, or `None` where `n` is zero.
fn dec(n: usize) -> (r: Option<usize>)
    ensures
        r == (if n > 0 { Some((n - 1) as usize) } else { None::<usize> }),
{
    n.checked_sub(1)
}


/// One for a live cell, zero for a dead one.
pub open spec fn live(b: bool) -> int {
    if b { 1 } else { 0 }
}

/// Conway's rule: a live cell with two or three live neighbours lives on,
/// a dead cell with exactly three comes alive, every other cell is dead.
pub open spec fn rule(alive: bool, n: int) -> bool {
    if alive { n == 2 || n == 3 } else { n == 3 }
}

impl<const W: usize, const H: usize> Grid<W, H> {
    #[verifier::type_invariant]
    spec fn inv(&self) -> bool {
        self.cells@.len() == area(W, H)
    }

    /// A grid holds exactly `W * H` cells; every grid that this module hands
    /// out meets this.
    pub open spec fn wf(&self) -> bool {
        self@.len() == area(W, H)
    }

    /// The cell at row `y`, column `x`; every coordinate off the grid is dead.
    pub open spec fn cell(&self, y: int, x: int) -> bool {
        0 <= y < H && 0 <= x < W && self@[y * W + x]
    }

    /// How many of the listed coordinates hold a live cell, counting repeats.
    pub open spec fn count_live(&self, coords: Seq<(usize, usize)>) -> int
        decreases coords.len(),
    {
        if coords.len() == 0 {
            0
        } else {
            self.count_live(coords.drop_last()) + live(
                self.cell(coords.last().0 as int, coords.last().1 as int),
            )
        }
    }

    /// Adding one coordinate adds its cell to the count.
    pub proof fn lemma_count_live_push(&self, coords: Seq<(usize, usize)>, c: (usize, usize))
        ensures
            self.count_live(coords.push(c)) == self.count_live(coords) + live(
                self.cell(c.0 as int, c.1 as int),
            ),
    {
        assert(coords.push(c).drop_last() =~= coords);
    }

    /// The number of live cells among the eight around `(y, x)`.
    pub open spec fn neighbors(&self, y: int, x: int) -> int {
        live(self.cell(y - 1, x - 1)) + live(self.cell(y - 1, x)) + live(self.cell(y - 1, x + 1))
            + live(self.cell(y, x - 1)) + live(self.cell(y, x + 1))
            + live(self.cell(y + 1, x - 1)) + live(self.cell(y + 1, x)) + live(
            self.cell(y + 1, x + 1),
        )
    }

    /// The state of `(y, x)` in the next generation.
    pub open spec fn next_cell(&self, y: int, x: int) -> bool {
        rule(self.cell(y, x), self.neighbors(y, x))
    }

    /// The next generation, row-major.
    pub open spec fn next_gen(&self) -> Seq<bool> {
        Seq::new(area(W, H) as nat, |i: int| self.next_cell(i / W as int, i % W as int))
    }

    /// What decoding the flat sequence `values` gives: the cells row-major
    /// where there are exactly `W * H` of them, else the error for the length.
    pub open spec fn decoded(values: Seq<bool>) -> Result<Seq<bool>, DecodeError> {
        if values.len() > area(W, H) {
            Err(DecodeError::TooManyElements)
        } else if values.len() < area(W, H) {
            Err(DecodeError::NotEnoughElements)
        } else {
            Ok(values)
        }
    }

    /// The text of row `y`: the row's cells between two `|`.
    pub open spec fn row_text(&self, y: int) -> Seq<char> {
        seq!['|'] + Seq::new(W as nat, |x: int| glyph(self.cell(y, x))) + seq!['|']
    }

    /// The text of the first `k` rows, each followed by a newline.
    pub open spec fn rows_text(&self, k: nat) -> Seq<char>
        decreases k,
    {
        if k == 0 {
            Seq::empty()
        } else {
            self.rows_text((k - 1) as nat) + self.row_text(k - 1) + seq!['\n']
        }
    }

    /// The grid drawn in a box: a top border, a line per row, a bottom border.
    pub open spec fn display(&self) -> Seq<char> {
        border('/', '\\', W as nat) + seq!['\n'] + self.rows_text(H as nat) + border(
            '\\',
            '/',
            W as nat,
        )
    }

    /// Row `y`, column `x` of the grid sits at a valid row-major index, and
    /// that index gives back `y` and `x`.
    pub proof fn lemma_index(y: int, x: int)
        requires
            0 <= y < H,
            0 <= x < W,
        ensures
            0 <= y * W + x < area(W, H),
            (y * W + x) / (W as int) == y,
            (y * W + x) % (W as int) == x,
    {
        assert(0 <= y * W + x < W * H) by (nonlinear_arith)
            requires
                0 <= y < H,
                0 <= x < W,
        ;
        lemma_fundamental_div_mod_converse(y * W + x, W as int, y, x);
    }

    /// Stepping depends on the cells alone: two grids with the same cells,
    /// however each was built, have the same next generation.
    pub proof fn lemma_step_deterministic(a: Self, b: Self)
        requires
            a@ == b@,
        ensures
            a.next_gen() == b.next_gen(),
    {
        assert(a.next_gen() =~= b.next_gen());
    }

    /// Encoding a valid grid and decoding the result gives the same cells.
    pub proof fn lemma_round_trip(g: Self)
        requires
            g.wf(),
        ensures
            Self::decoded(g@) == Ok::<Seq<bool>, DecodeError>(g@),
    {
    }

    /// A grid with every cell dead.
    pub fn empty() -> (r: Self)
        requires
            area(W, H) <= usize::MAX,
        ensures
            r.wf(),
            r@ == Seq::new(area(W, H) as nat, |i: int| false),
            forall|y: int, x: int| !#[trigger] r.cell(y, x),
    {
        let n: usize = W * H;
        let mut cells: Vec<bool> = Vec::new();
        let mut i: usize = 0;
        while i < n
            invariant
                n == area(W, H),
                i <= n,
                cells@ == Seq::new(i as nat, |k: int| false),
            decreases n - i,
        {
            cells.push(false);
            i = i + 1;
            assert(cells@ =~= Seq::new(i as nat, |k: int| false));
        }
        let r = Grid { cells };
        assert forall|y: int, x: int| !#[trigger] r.cell(y, x) by {
            if 0 <= y < H && 0 <= x < W {
                Self::lemma_index(y, x);
            }
        }
        r
    }

    /// The cell at row `y`, column `x`, or `false` off the grid.
    pub fn at(&self, y: usize, x: usize) -> (r: bool)
        ensures
            r == self.cell(y as int, x as int),
            y >= H || x >= W ==> !r,
    {
        proof { use_type_invariant(self); }
        let len: usize = self.cells.len();
        if y < H && x < W {
            assert(y * W + x < len) by (nonlinear_arith)
                requires y < H, x < W, len == W * H;
            self.cells[y * W + x]
        } else {
            false
        }
    }

    /// A grid whose cells are each drawn at random.
    pub fn random() -> (r: Self)
        requires
            area(W, H) <= usize::MAX,
        ensures
            r.wf(),
    {
        let cells = random_cells(W * H);
        Grid { cells }
    }

    /// The cells as a flat sequence, row-major, with no length in front.
    pub fn serialize(&self) -> (r: Vec<bool>)
        ensures
            r@ == self@,
    {
        proof { use_type_invariant(self); }
        let r = self.cells.clone();
        assert(r@ =~= self.cells@);
        r
    }

    /// Rebuilds a grid from exactly `W * H` values in row-major order.
    pub fn deserialize(values: &[bool]) -> (r: Result<Self, DecodeError>)
        ensures
            match r {
                Ok(g) => g.wf() && Self::decoded(values@) == Ok::<Seq<bool>, DecodeError>(g@),
                Err(e) => Self::decoded(values@) == Err::<Seq<bool>, DecodeError>(e),
            },
            values@.len() < area(W, H) ==> r == Err::<Self, DecodeError>(
                DecodeError::NotEnoughElements,
            ),
            values@.len() > area(W, H) ==> r == Err::<Self, DecodeError>(
                DecodeError::TooManyElements,
            ),
            values@.len() == area(W, H) ==> r is Ok,
    {
        let len: usize = values.len();
        let n: usize = match W.checked_mul(H) {
            Some(n) => n,
            None => {
                return Err(DecodeError::NotEnoughElements);
            },
        };
        let mut cells: Vec<bool> = Vec::new();
        let mut i: usize = 0;
        while i < len
            invariant
                len == values@.len(),
                n == area(W, H),
                i <= values@.len(),
                i <= n,
                cells@ == values@.subrange(0, i as int),
            decreases values@.len() - i,
        {
            if i == n {
                return Err(DecodeError::TooManyElements);
            }
            cells.push(values[i]);
            i = i + 1;
            assert(cells@ =~= values@.subrange(0, i as int));
        }
        if i != n {
            return Err(DecodeError::NotEnoughElements);
        }
        assert(cells@ =~= values@);
        let g = Grid { cells };
        assert(g@ == values@);
        Ok(g)
    }

    /// The text of row `y`.
    fn row_line(&self, y: usize) -> (r: String)
        ensures
            r@ == self.row_text(y as int),
    {
        let mut out = String::from_str("|");
        let mut x: usize = 0;
        proof {
            reveal_strlit("|");
            reveal_strlit("X");
            reveal_strlit(" ");
        }
        while x < W
            invariant
                x <= W,
                out@ == seq!['|'] + Seq::new(x as nat, |j: int| glyph(self.cell(y as int, j))),
            decreases W - x,
        {
            proof {
                reveal_strlit("X");
                reveal_strlit(" ");
            }
            if self.at(y, x) {
                out.append("X");
            } else {
                out.append(" ");
            }
            x = x + 1;
            assert(out@ =~= seq!['|'] + Seq::new(x as nat, |j: int| glyph(self.cell(y as int, j))));
        }
        out.append("|");
        assert(out@ =~= self.row_text(y as int));
        out
    }

    /// A border line: `open`, then `W` times `=`, then `close`.
    fn border_line(open: &str, close: &str) -> (r: String)
        requires
            open@.len() == 1,
            close@.len() == 1,
        ensures
            r@ == border(open@[0], close@[0], W as nat),
    {
        let mut out = String::from_str(open);
        let mut x: usize = 0;
        proof { reveal_strlit("="); }
        while x < W
            invariant
                x <= W,
                open@.len() == 1,
                out@ == seq![open@[0]] + Seq::new(x as nat, |j: int| '='),
            decreases W - x,
        {
            proof { reveal_strlit("="); }
            out.append("=");
            x = x + 1;
            assert(out@ =~= seq![open@[0]] + Seq::new(x as nat, |j: int| '='));
        }
        out.append(close);
        assert(out@ =~= border(open@[0], close@[0], W as nat));
        out
    }

    /// The grid drawn as text: `/`, `W` times `=` and `\\` on top, then each
    /// row between two `|` with `X` for a live cell and a space for a dead
    /// one, then `\\`, `W` times `=` and `/`; lines end in `\n`, the last
    /// has none.
    pub fn to_display_string(&self) -> (r: String)
        ensures
            r@ == self.display(),
    {
        proof {
            reveal_strlit("/");
            reveal_strlit("\\");
            reveal_strlit("\n");
        }
        let mut out = Self::border_line("/", "\\");
        out.append("\n");
        let mut y: usize = 0;
        while y < H
            invariant
                y <= H,
                out@ == border('/', '\\', W as nat) + seq!['\n'] + self.rows_text(y as nat),
            decreases H - y,
        {
            proof { reveal_strlit("\n"); }
            let line = self.row_line(y);
            out.append(line.as_str());
            out.append("\n");
            y = y + 1;
            assert(out@ =~= border('/', '\\', W as nat) + seq!['\n'] + self.rows_text(y as nat));
        }
        let bottom = Self::border_line("\\", "/");
        out.append(bottom.as_str());
        out
    }

    /// The next generation, as a fresh grid; `self` is left as it is.
    pub fn step(&self) -> (r: Self)
        ensures
            r.wf(),
            r@ == self.next_gen(),
            forall|y: int, x: int|
                0 <= y < H && 0 <= x < W ==> #[trigger] r.cell(y, x) == self.next_cell(y, x),
    {
        proof { use_type_invariant(self); }
        let n: usize = self.cells.len();
        let mut cells: Vec<bool> = Vec::new();
        let mut i: usize = 0;
        while i < n
            invariant
                n == area(W, H),
                i <= n,
                cells@.len() == i,
                forall|k: int| 0 <= k < i ==> cells@[k] == #[trigger] self.next_gen()[k],
            decreases n - i,
        {
            let v = self.next_at(i / W, i % W);
            cells.push(v);
            i = i + 1;
        }
        assert(cells@ =~= self.next_gen());
        let r = Grid { cells };
        assert forall|y: int, x: int| 0 <= y < H && 0 <= x < W implies #[trigger] r.cell(y, x)
            == self.next_cell(y, x) by {
            Self::lemma_index(y, x);
        }
        r
    }

    /// An iterator over the generations that follow `self`.
    pub fn into_iter(self) -> (r: GridIter<W, H>)
        ensures
            r.current() == self,
    {
        GridIter { grid: self }
    }

    /// The number of live cells among `coords`.
    pub fn count_active(&self, coords: &Vec<(usize, usize)>) -> (r: usize)
        ensures
            r == self.count_live(coords@),
    {
        let mut ret: usize = 0;
        let mut i: usize = 0;
        while i < coords.len()
            invariant
                i <= coords@.len(),
                ret <= i,
                ret == self.count_live(coords@.subrange(0, i as int)),
            decreases coords@.len() - i,
        {
            let (y, x) = coords[i];
            proof {
                self.lemma_count_live_push(coords@.subrange(0, i as int), (y, x));
                assert(coords@.subrange(0, i as int).push((y, x)) =~= coords@.subrange(
                    0,
                    i + 1,
                ));
            }
            if self.at(y, x) {
                ret = ret + 1;
            }
            i = i + 1;
        }
        assert(coords@.subrange(0, i as int) =~= coords@);
        ret
    }

    /// The cell at `(y, x)` where both coordinates exist; nothing otherwise.
    pub open spec fn live_at(&self, y: Option<usize>, x: Option<usize>) -> int {
        match (y, x) {
            (Some(a), Some(b)) => live(self.cell(a as int, b as int)),
            _ => 0,
        }
    }

    /// Appends `(y, x)` to `coords` where both coordinates exist.
    fn push_valid(&self, coords: &mut Vec<(usize, usize)>, y: Option<usize>, x: Option<usize>)
        requires
            old(coords)@.len() < 8,
        ensures
            final(coords)@.len() <= old(coords)@.len() + 1,
            self.count_live(final(coords)@) == self.count_live(old(coords)@) + self.live_at(y, x),
    {
        if let Some(a) = y {
            if let Some(b) = x {
                proof { self.lemma_count_live_push(coords@, (a, b)); }
                coords.push((a, b));
            }
        }
    }

    /// The number of live cells among the eight around `(y, x)`; coordinates
    /// that fall below zero are skipped, those past the grid count as dead.
    pub fn count_neighbors(&self, y: usize, x: usize) -> (r: usize)
        ensures
            r == self.neighbors(y as int, x as int),
    {
        let mut coords: Vec<(usize, usize)> = Vec::new();
        self.push_valid(&mut coords, inc(y), inc(x));
        self.push_valid(&mut coords, dec(y), dec(x));
        self.push_valid(&mut coords, inc(y), dec(x));
        self.push_valid(&mut coords, dec(y), inc(x));
        self.push_valid(&mut coords, Some(y), inc(x));
        self.push_valid(&mut coords, inc(y), Some(x));
        self.push_valid(&mut coords, Some(y), dec(x));
        self.push_valid(&mut coords, dec(y), Some(x));
        self.count_active(&coords)
    }

    /// The state of `(y, x)` in the next generation.
    pub fn next_at(&self, y: usize, x: usize) -> (r: bool)
        ensures
            r == self.next_cell(y as int, x as int),
    {
        let alive = self.at(y, x);
        let n: usize = self.count_neighbors(y, x);
        if alive {
            n == 2 || n == 3
        } else {
            n == 3
        }
    }
}

} // verus!
