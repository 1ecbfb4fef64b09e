//! The mutable tabular store: ordered rows of text cells, row 0 being
//! the header, plus per-column maximum text widths kept exact for
//! rendering. Every operation preserves the table invariant
//! [`table_wf`]: all rows have the header's length and each tracked
//! width equals the true maximum width of its column.
use vstd::prelude::*;

use crate::errors::{ErrKind, InterpError};
use crate::text::{dec_digits, str_eq, usize_to_dec_string};

verus! {

/// The mathematical image of the table.
pub ghost struct TableV {
    pub cells: Seq<Seq<Seq<char>>>,
    pub max_width: Seq<nat>,
}

pub open spec fn row_view(r: Seq<String>) -> Seq<Seq<char>> {
    r.map_values(|s: String| s@)
}

pub open spec fn cells_view(c: Seq<Vec<String>>) -> Seq<Seq<Seq<char>>> {
    c.map_values(|r: Vec<String>| row_view(r@))
}

pub proof fn lemma_row_view(r: Seq<String>)
    ensures
        row_view(r).len() == r.len(),
        forall|i: int| 0 <= i < r.len() ==> #[trigger] row_view(r)[i] == r[i]@,
{
}

pub proof fn lemma_cells_view(c: Seq<Vec<String>>)
    ensures
        cells_view(c).len() == c.len(),
        forall|i: int| 0 <= i < c.len() ==> #[trigger] cells_view(c)[i] == row_view(c[i]@),
{
}

/// The longest text in column `j`, over all rows including the header.
pub open spec fn col_max(c: Seq<Seq<Seq<char>>>, j: int) -> nat
    decreases c.len(),
{
    if c.len() == 0 {
        0
    } else {
        let w = c.last()[j].len();
        let rest = col_max(c.drop_last(), j);
        if w > rest {
            w
        } else {
            rest
        }
    }
}

/// Every row as long as the header.
pub open spec fn cells_shape_ok(c: Seq<Seq<Seq<char>>>) -> bool {
    forall|i: int| 0 <= i < c.len() ==> #[trigger] c[i].len() == c[0].len()
}

/// The table invariant: a consistent shape, and one exact width per
/// column.
pub open spec fn table_wf(t: TableV) -> bool {
    &&& cells_shape_ok(t.cells)
    &&& t.max_width.len() == (if t.cells.len() == 0 {
        0int
    } else {
        t.cells[0].len() as int
    })
    &&& forall|j: int| 0 <= j < t.max_width.len() ==> t.max_width[j] == col_max(t.cells, j)
}

/// The text of one fresh cell of a generated or extended column.
pub open spec fn empty_marker() -> Seq<char> {
    "<Empty>"@
}

// ---------------------------------------------------------------------
// The row environment: the read-only name-to-text mapping one row
// exposes to expression evaluation.
// ---------------------------------------------------------------------
/// The reserved key holding a row's ordinal index.
pub open spec fn rowcount_key() -> Seq<char> {
    "$rowcount"@
}

/// The map described by an ordered list of bindings; a later binding for
/// the same name wins.
pub open spec fn pairs_map(ps: Seq<(String, String)>) -> Map<Seq<char>, Seq<char>>
    decreases ps.len(),
{
    if ps.len() == 0 {
        Map::empty()
    } else {
        pairs_map(ps.drop_last()).insert(ps.last().0@, ps.last().1@)
    }
}

/// A read-only mapping from column name (plus the reserved row-ordinal
/// key) to one row's cell text.
pub struct RowEnv {
    pairs: Vec<(String, String)>,
}

impl View for RowEnv {
    type V = Map<Seq<char>, Seq<char>>;

    closed spec fn view(&self) -> Map<Seq<char>, Seq<char>> {
        pairs_map(self.pairs@)
    }
}

proof fn lemma_pairs_map_no_match(ps: Seq<(String, String)>, key: Seq<char>)
    requires
        forall|j: int| 0 <= j < ps.len() ==> (#[trigger] ps[j].0)@ != key,
    ensures
        !pairs_map(ps).contains_key(key),
    decreases ps.len(),
{
    if ps.len() > 0 {
        lemma_pairs_map_no_match(ps.drop_last(), key);
    }
}

proof fn lemma_pairs_map_last_match(ps: Seq<(String, String)>, key: Seq<char>, k: int)
    requires
        0 <= k < ps.len(),
        ps[k].0@ == key,
        forall|j: int| k < j < ps.len() ==> (#[trigger] ps[j].0)@ != key,
    ensures
        pairs_map(ps).contains_key(key),
        pairs_map(ps)[key] == ps[k].1@,
    decreases ps.len(),
{
    if k == ps.len() - 1 {
    } else {
        lemma_pairs_map_last_match(ps.drop_last(), key, k);
    }
}

impl RowEnv {
    /// An empty environment.
    pub fn new() -> (r: RowEnv)
        ensures
            r@ == Map::<Seq<char>, Seq<char>>::empty(),
    {
        RowEnv { pairs: Vec::new() }
    }

    /// Bind a name; a later binding shadows an earlier one.
    pub fn insert(&mut self, key: String, value: String)
        ensures
            final(self)@ == old(self)@.insert(key@, value@),
    {
        let ghost before = self.pairs@;
        self.pairs.push((key, value));
        proof {
            assert(self.pairs@.drop_last() =~= before);
        }
    }

    /// Look up a name; the latest binding for it, if any.
    #[verifier::loop_isolation(false)]
    pub fn get(&self, name: &str) -> (r: Option<&String>)
        ensures
            (r is Some) == self@.contains_key(name@),
            r matches Some(v) ==> v@ == self@[name@],
    {
        let mut k = self.pairs.len();
        while k > 0
            invariant
                0 <= k <= self.pairs@.len(),
                forall|j: int| k <= j < self.pairs@.len() ==> (#[trigger] self.pairs@[j].0)@
                    != name@,
            decreases k,
        {
            k = k - 1;
            if str_eq(self.pairs[k].0.as_str(), name) {
                proof {
                    lemma_pairs_map_last_match(self.pairs@, name@, k as int);
                }
                return Some(&self.pairs[k].1);
            }
        }
        proof {
            lemma_pairs_map_no_match(self.pairs@, name@);
        }
        None
    }
}

/// The environment a row exposes: the header zipped with the row's
/// cells, later duplicate names shadowing earlier ones, plus the
/// reserved row-ordinal key.
pub open spec fn zip_env(keys: Seq<Seq<char>>, vals: Seq<Seq<char>>) -> Map<Seq<char>, Seq<char>>
    decreases keys.len(),
{
    if keys.len() == 0 || vals.len() == 0 {
        Map::empty()
    } else {
        zip_env(keys.drop_last(), vals.drop_last()).insert(keys.last(), vals.last())
    }
}

/// The environment row `index` of a cell grid exposes.
pub open spec fn env_of_cells(cells: Seq<Seq<Seq<char>>>, index: int) -> Map<Seq<char>, Seq<char>> {
    zip_env(cells[0], cells[index]).insert(rowcount_key(), dec_digits(index as nat))
}

pub open spec fn row_env_spec(t: TableV, index: int) -> Map<Seq<char>, Seq<char>> {
    env_of_cells(t.cells, index)
}

// ---------------------------------------------------------------------
// The table.
// ---------------------------------------------------------------------
/// Ordered rows of text cells; row 0 is the header. Tracked per-column
/// maximum widths stay exact under every operation.
pub struct Table {
    cells: Vec<Vec<String>>,  // Rows -> Cols
    max_width: Vec<usize>,
}

impl View for Table {
    type V = TableV;

    closed spec fn view(&self) -> TableV {
        TableV {
            cells: cells_view(self.cells@),
            max_width: self.max_width@.map_values(|w: usize| w as nat),
        }
    }
}

impl Table {
    /// A fresh table: an empty header row, no data, no widths.
    pub fn new() -> (r: Table)
        ensures
            r@.cells =~~= seq![Seq::<Seq<char>>::empty()],
            r@.max_width =~= Seq::<nat>::empty(),
            table_wf(r@),
    {
        let mut cells: Vec<Vec<String>> = Vec::new();
        cells.push(Vec::new());
        let r = Table { cells, max_width: Vec::new() };
        proof {
            lemma_cells_view(r.cells@);
            lemma_row_view(r.cells@[0]@);
            assert(r@.cells =~~= seq![Seq::<Seq<char>>::empty()]);
            assert(r@.max_width =~= Seq::<nat>::empty());
        }
        r
    }

    /// Empty all rows and width tracking.
    pub fn clear(&mut self)
        ensures
            final(self)@.cells =~= Seq::<Seq<Seq<char>>>::empty(),
            final(self)@.max_width =~= Seq::<nat>::empty(),
            table_wf(final(self)@),
    {
        self.cells = Vec::new();
        self.max_width = Vec::new();
        proof {
            lemma_cells_view(self.cells@);
        }
    }

    /// How many rows the table holds, the header included.
    pub fn row_count(&self) -> (r: usize)
        ensures
            r == self@.cells.len(),
    {
        proof {
            lemma_cells_view(self.cells@);
        }
        self.cells.len()
    }

    /// How many columns the header holds.
    pub fn col_count(&self) -> (r: usize)
        requires
            self@.cells.len() > 0,
        ensures
            r == self@.cells[0].len(),
    {
        proof {
            lemma_cells_view(self.cells@);
            lemma_row_view(self.cells@[0]@);
        }
        self.cells[0].len()
    }

    /// Read one cell.
    pub fn get_cell(&self, row: usize, column: usize) -> (r: &String)
        requires
            row < self@.cells.len(),
            column < self@.cells[row as int].len(),
        ensures
            r@ == self@.cells[row as int][column as int],
    {
        proof {
            lemma_cells_view(self.cells@);
            lemma_row_view(self.cells@[row as int]@);
        }
        &self.cells[row][column]
    }

    /// Read one column's tracked maximum width.
    pub fn get_width(&self, column: usize) -> (r: usize)
        requires
            column < self@.max_width.len(),
        ensures
            r as nat == self@.max_width[column as int],
    {
        self.max_width[column]
    }

    /// Recompute every tracked width as the true maximum of its column.
    #[verifier::loop_isolation(false)]
    fn recompute_widths(&mut self)
        requires
            cells_shape_ok(old(self)@.cells),
        ensures
            final(self).cells == old(self).cells,
            final(self)@.cells == old(self)@.cells,
            table_wf(final(self)@),
    {
        let ghost cv = self@.cells;
        proof {
            lemma_cells_view(self.cells@);
        }
        let mut widths: Vec<usize> = Vec::new();
        if self.cells.len() > 0 {
            proof {
                lemma_row_view(self.cells@[0]@);
            }
            let ncols = self.cells[0].len();
            let mut j: usize = 0;
            while j < ncols
                invariant
                    widths@.len() == j,
                    0 <= j <= ncols,
                    forall|k: int| 0 <= k < j ==> (#[trigger] widths@[k]) as nat == col_max(cv, k),
                decreases ncols - j,
            {
                let mut w: usize = 0;
                let mut i: usize = 0;
                proof {
                    assert(cv.take(0) =~= Seq::<Seq<Seq<char>>>::empty());
                }
                while i < self.cells.len()
                    invariant
                        0 <= i <= self.cells@.len(),
                        0 <= j < ncols,
                        w as nat == col_max(cv.take(i as int), j as int),
                    decreases self.cells@.len() - i,
                {
                    proof {
                        lemma_cells_view(self.cells@);
                        lemma_row_view(self.cells@[i as int]@);
                        assert(cv[i as int].len() == cv[0].len());
                    }
                    let l = self.cells[i][j].as_str().unicode_len();
                    proof {
                        assert(cv.take(i + 1).drop_last() =~= cv.take(i as int));
                        assert(cv.take(i + 1).last() == cv[i as int]);
                        assert(cv[i as int][j as int] == self.cells@[i as int]@[j as int]@);
                    }
                    if l > w {
                        w = l;
                    }
                    i = i + 1;
                }
                proof {
                    assert(cv.take(cv.len() as int) =~= cv);
                }
                widths.push(w);
                j = j + 1;
            }
        }
        self.max_width = widths;
        proof {
            lemma_cells_view(self.cells@);
            assert(forall|k: int|
                0 <= k < self.max_width@.len() ==> #[trigger] self@.max_width[k] == (
                self.max_width@[k] as nat));
        }
    }

    /// Overwrite one cell; widths stay exact.
    pub fn set_cell(&mut self, column: usize, row: usize, value: &String) -> (r: Result<
        (),
        InterpError,
    >)
        requires
            table_wf(old(self)@),
            row < old(self)@.cells.len(),
            column < old(self)@.cells[row as int].len(),
        ensures
            r is Ok,
            table_wf(final(self)@),
            final(self)@.cells =~~= old(self)@.cells.update(
                row as int,
                old(self)@.cells[row as int].update(column as int, value@),
            ),
    {
        let ghost before = self@.cells;
        proof {
            lemma_cells_view(self.cells@);
            lemma_row_view(self.cells@[row as int]@);
        }
        self.cells[row][column] = value.clone();
        proof {
            lemma_cells_view(self.cells@);
            lemma_row_view(self.cells@[row as int]@);
            assert(self@.cells =~~= before.update(
                row as int,
                before[row as int].update(column as int, value@),
            ));
            assert(cells_shape_ok(self@.cells));
        }
        self.recompute_widths();
        Ok(())
    }

    /// The name-to-text mapping of one row, with the reserved
    /// row-ordinal key.
    #[verifier::loop_isolation(false)]
    pub fn get_row_env(&self, index: usize) -> (r: Result<RowEnv, InterpError>)
        requires
            table_wf(self@),
            index < self@.cells.len(),
        ensures
            r matches Ok(env) ==> env@ == row_env_spec(self@, index as int),
            r is Ok,
    {
        let ghost keys = self@.cells[0];
        let ghost vals = self@.cells[index as int];
        proof {
            lemma_cells_view(self.cells@);
            lemma_row_view(self.cells@[0]@);
            lemma_row_view(self.cells@[index as int]@);
            assert(vals.len() == keys.len());
        }
        let mut result = RowEnv::new();
        let n = self.cells[0].len();
        let mut j: usize = 0;
        proof {
            assert(zip_env(keys.take(0), vals.take(0)) =~= Map::<Seq<char>, Seq<char>>::empty());
        }
        while j < n
            invariant
                0 <= j <= n,
                result@ == zip_env(keys.take(j as int), vals.take(j as int)),
            decreases n - j,
        {
            let key = self.cells[0][j].clone();
            let cell = self.cells[index][j].clone();
            result.insert(key, cell);
            proof {
                assert(keys.take(j + 1).drop_last() =~= keys.take(j as int));
                assert(vals.take(j + 1).drop_last() =~= vals.take(j as int));
                assert(keys.take(j + 1).last() == keys[j as int]);
                assert(vals.take(j + 1).last() == vals[j as int]);
            }
            j = j + 1;
        }
        proof {
            assert(keys.take(keys.len() as int) =~= keys);
            assert(vals.take(vals.len() as int) =~= vals);
        }
        let ordinal = usize_to_dec_string(index);
        result.insert(String::from_str("$rowcount"), ordinal);
        Ok(result)
    }

    /// Append a column named `val`, filling existing data rows with
    /// empty text, and return the index of the first column of that
    /// name.
    #[verifier::loop_isolation(false)]
    pub fn create_column(&mut self, val: &String) -> (r: Result<usize, InterpError>)
        requires
            table_wf(old(self)@),
            old(self)@.cells.len() > 0,
        ensures
            table_wf(final(self)@),
            final(self)@.cells.len() == old(self)@.cells.len(),
            final(self)@.cells[0] =~= old(self)@.cells[0].push(val@),
            forall|i: int|
                1 <= i < final(self)@.cells.len() ==> #[trigger] final(self)@.cells[i] =~= old(
                    self,
                )@.cells[i].push(Seq::<char>::empty()),
            r matches Ok(ix) ==> find_col(final(self)@.cells[0], val@) == Option::Some(ix as int),
            r is Ok,
    {
        let ghost before = self@.cells;
        let ghost base = self.cells@;
        proof {
            lemma_cells_view(self.cells@);
        }
        self.cells[0].push(val.clone());
        let filler = String::new();
        let mut i: usize = 1;
        while i < self.cells.len()
            invariant
                1 <= i <= self.cells@.len(),
                self.cells@.len() == base.len(),
                self.cells@[0]@ =~= base[0]@.push(*val),
                forall|k: int|
                    1 <= k < i ==> (#[trigger] self.cells@[k])@ =~= base[k]@.push(filler),
                forall|k: int| i <= k < base.len() ==> #[trigger] self.cells@[k] == base[k],
            decreases self.cells@.len() - i,
        {
            self.cells[i].push(filler.clone());
            i = i + 1;
        }
        proof {
            lemma_push_col_views(base, self.cells@, *val, filler);
            assert(cells_shape_ok(self@.cells));
        }
        self.recompute_widths();
        let r = self.get_column(val.as_str());
        proof {
            lemma_find_col(self@.cells[0], val@);
            assert(self@.cells[0].last() == val@);
        }
        r
    }

    /// The index of the first column of a name, or a lookup error.
    #[verifier::loop_isolation(false)]
    pub fn get_column(&self, name: &str) -> (r: Result<usize, InterpError>)
        ensures
            match find_col(if self@.cells.len() == 0 {
                Seq::<Seq<char>>::empty()
            } else {
                self@.cells[0]
            }, name@) {
                Option::Some(ix) => r matches Ok(i) && i as int == ix,
                Option::None => r matches Err(e) && e.kind() == ErrKind::Lookup,
            },
    {
        proof {
            lemma_cells_view(self.cells@);
        }
        if self.cells.len() == 0 {
            proof {
                lemma_find_col(Seq::<Seq<char>>::empty(), name@);
            }
            return Err(InterpError::LookupError { name: String::from_str(name) });
        }
        let ghost keys = self@.cells[0];
        proof {
            lemma_row_view(self.cells@[0]@);
        }
        let n = self.cells[0].len();
        let mut j: usize = 0;
        while j < n
            invariant
                0 <= j <= n,
                forall|k: int| 0 <= k < j ==> #[trigger] keys[k] != name@,
            decreases n - j,
        {
            if str_eq(self.cells[0][j].as_str(), name) {
                proof {
                    lemma_find_col_at(keys, name@, j as int);
                }
                return Ok(j);
            }
            j = j + 1;
        }
        proof {
            lemma_find_col_none(keys, name@);
        }
        Err(InterpError::LookupError { name: String::from_str(name) })
    }

    /// The index of the column named `val`, creating it if absent.
    pub fn get_or_create_column(&mut self, val: &String) -> (r: Result<usize, InterpError>)
        requires
            table_wf(old(self)@),
            old(self)@.cells.len() > 0,
        ensures
            table_wf(final(self)@),
            final(self)@.cells.len() == old(self)@.cells.len(),
            match find_col(old(self)@.cells[0], val@) {
                Option::Some(ix) => {
                    &&& r matches Ok(i) && i as int == ix
                    &&& final(self)@.cells == old(self)@.cells
                },
                Option::None => {
                    &&& r matches Ok(i) && i as int == old(self)@.cells[0].len()
                    &&& final(self)@.cells[0] =~= old(self)@.cells[0].push(val@)
                    &&& forall|i: int|
                        1 <= i < final(self)@.cells.len() ==> #[trigger] final(self)@.cells[i]
                            =~= old(self)@.cells[i].push(Seq::<char>::empty())
                },
            },
    {
        let existing = self.get_column(val.as_str());
        if existing.is_ok() {
            return existing;
        }
        let r = self.create_column(val);
        proof {
            lemma_find_col_push_absent(old(self)@.cells[0], val@);
        }
        r
    }

    /// Append a column, filling existing data rows with `fill_col` or
    /// the empty-marker text; creates the header row when the table has
    /// none.
    #[verifier::loop_isolation(false)]
    pub fn add_col(&mut self, val: &String, fill_col: Option<String>)
        requires
            table_wf(old(self)@),
        ensures
            table_wf(final(self)@),
            final(self)@.cells.len() == (if old(self)@.cells.len() == 0 {
                1int
            } else {
                old(self)@.cells.len() as int
            }),
            final(self)@.cells[0] =~= (if old(self)@.cells.len() == 0 {
                Seq::<Seq<char>>::empty()
            } else {
                old(self)@.cells[0]
            }).push(val@),
            forall|i: int|
                1 <= i < final(self)@.cells.len() ==> #[trigger] final(self)@.cells[i] =~= old(
                    self,
                )@.cells[i].push(
                    match fill_col {
                        Option::Some(f) => f@,
                        Option::None => empty_marker(),
                    },
                ),
    {
        let ghost before = self@.cells;
        let row_val = match fill_col {
            Some(f) => f,
            None => String::from_str("<Empty>"),
        };
        proof {
            lemma_cells_view(self.cells@);
        }
        if self.cells.len() == 0 {
            self.cells.push(Vec::new());
            proof {
                lemma_cells_view(self.cells@);
                lemma_row_view(self.cells@[0]@);
            }
        }
        proof {
            lemma_cells_view(self.cells@);
            lemma_row_view(self.cells@[0]@);
        }
        let ghost base = self.cells@;
        self.cells[0].push(val.clone());
        let mut i: usize = 1;
        while i < self.cells.len()
            invariant
                1 <= i <= self.cells@.len(),
                self.cells@.len() == base.len(),
                self.cells@[0]@ =~= base[0]@.push(*val),
                forall|k: int|
                    1 <= k < i ==> (#[trigger] self.cells@[k])@ =~= base[k]@.push(row_val),
                forall|k: int| i <= k < base.len() ==> #[trigger] self.cells@[k] == base[k],
            decreases self.cells@.len() - i,
        {
            self.cells[i].push(row_val.clone());
            i = i + 1;
        }
        proof {
            lemma_push_col_views(base, self.cells@, *val, row_val);
            assert(cells_view(base)[0] =~= (if old(self)@.cells.len() == 0 {
                Seq::<Seq<char>>::empty()
            } else {
                old(self)@.cells[0]
            }));
            assert(cells_shape_ok(self@.cells));
        }
        self.recompute_widths();
    }

    /// Append one data row; fails with a shape error, mutating nothing,
    /// when its cell count disagrees with the header's.
    pub fn try_add_row(&mut self, val: Vec<String>) -> (r: Result<(), InterpError>)
        requires
            table_wf(old(self)@),
        ensures
            table_wf(final(self)@),
            old(self)@.cells.len() > 0 && val@.len() == old(self)@.cells[0].len() ==> {
                &&& r is Ok
                &&& final(self)@.cells =~= old(self)@.cells.push(row_view(val@))
            },
            !(old(self)@.cells.len() > 0 && val@.len() == old(self)@.cells[0].len()) ==> {
                &&& r matches Err(e) && e.kind() == ErrKind::Shape
                &&& final(self)@ == old(self)@
            },
    {
        proof {
            lemma_cells_view(self.cells@);
        }
        if self.cells.len() == 0 {
            return Err(InterpError::ShapeError);
        }
        proof {
            lemma_row_view(self.cells@[0]@);
        }
        if val.len() != self.cells[0].len() {
            return Err(InterpError::ShapeError);
        }
        let ghost before = self@.cells;
        self.cells.push(val);
        proof {
            lemma_cells_view(self.cells@);
            assert(self@.cells =~= before.push(row_view(self.cells@.last()@)));
            assert(cells_shape_ok(self@.cells));
        }
        self.recompute_widths();
        Ok(())
    }

    /// Delete one row, shifting later rows up; widths stay exact.
    pub fn remove_row(&mut self, index: usize) -> (r: Result<(), InterpError>)
        requires
            table_wf(old(self)@),
            index < old(self)@.cells.len(),
        ensures
            r is Ok,
            table_wf(final(self)@),
            final(self)@.cells =~= old(self)@.cells.remove(index as int),
    {
        let ghost before = self@.cells;
        proof {
            lemma_cells_view(self.cells@);
        }
        self.cells.remove(index);
        proof {
            lemma_cells_view(self.cells@);
            assert(self@.cells =~= before.remove(index as int));
            assert(cells_shape_ok(self@.cells));
        }
        self.recompute_widths();
        Ok(())
    }
}

/// Pushing one cell onto every row pushes its text onto every row's
/// view.
proof fn lemma_push_col_views(base: Seq<Vec<String>>, now: Seq<Vec<String>>, val: String, fill: String)
    requires
        now.len() == base.len(),
        base.len() >= 1,
        now[0]@ =~= base[0]@.push(val),
        forall|k: int| 1 <= k < now.len() ==> (#[trigger] now[k])@ =~= base[k]@.push(fill),
    ensures
        cells_view(now).len() == cells_view(base).len(),
        cells_view(now)[0] =~= cells_view(base)[0].push(val@),
        forall|k: int|
            1 <= k < now.len() ==> #[trigger] cells_view(now)[k] =~= cells_view(base)[k].push(
                fill@,
            ),
{
    lemma_cells_view(now);
    lemma_cells_view(base);
    lemma_row_view(now[0]@);
    lemma_row_view(base[0]@);
    assert(cells_view(now)[0] =~= cells_view(base)[0].push(val@));
    assert forall|k: int| 1 <= k < now.len() implies #[trigger] cells_view(now)[k]
        =~= cells_view(base)[k].push(fill@) by {
        lemma_row_view(now[k]@);
        lemma_row_view(base[k]@);
    }
}

/// The index of the first column of a given name in a header.
pub open spec fn find_col(header: Seq<Seq<char>>, name: Seq<char>) -> Option<int>
    decreases header.len(),
{
    if header.len() == 0 {
        Option::None
    } else if header.first() == name {
        Option::Some(0)
    } else {
        match find_col(header.drop_first(), name) {
            Option::None => Option::None,
            Option::Some(i) => Option::Some(i + 1),
        }
    }
}

pub proof fn lemma_find_col(header: Seq<Seq<char>>, name: Seq<char>)
    ensures
        match find_col(header, name) {
            Option::Some(i) => 0 <= i < header.len() && header[i] == name && forall|j: int|
                0 <= j < i ==> header[j] != name,
            Option::None => forall|j: int| 0 <= j < header.len() ==> header[j] != name,
        },
    decreases header.len(),
{
    if header.len() > 0 && header.first() != name {
        lemma_find_col(header.drop_first(), name);
        match find_col(header, name) {
            Option::Some(i) => {
                assert(header.drop_first()[i - 1] == header[i]);
                assert forall|j: int| 0 <= j < i implies header[j] != name by {
                    if j > 0 {
                        assert(header.drop_first()[j - 1] == header[j]);
                    }
                }
            },
            Option::None => {
                assert forall|j: int| 0 <= j < header.len() implies header[j] != name by {
                    if j > 0 {
                        assert(header.drop_first()[j - 1] == header[j]);
                    }
                }
            },
        }
    }
}

proof fn lemma_find_col_at(header: Seq<Seq<char>>, name: Seq<char>, k: int)
    requires
        0 <= k < header.len(),
        header[k] == name,
        forall|j: int| 0 <= j < k ==> #[trigger] header[j] != name,
    ensures
        find_col(header, name) == Option::Some(k),
    decreases k,
{
    if k > 0 {
        lemma_find_col_at(header.drop_first(), name, k - 1);
    }
}

proof fn lemma_find_col_none(header: Seq<Seq<char>>, name: Seq<char>)
    requires
        forall|j: int| 0 <= j < header.len() ==> #[trigger] header[j] != name,
    ensures
        find_col(header, name) is None,
    decreases header.len(),
{
    if header.len() > 0 {
        lemma_find_col_none(header.drop_first(), name);
    }
}

proof fn lemma_find_col_push_absent(header: Seq<Seq<char>>, name: Seq<char>)
    requires
        find_col(header, name) is None,
    ensures
        find_col(header.push(name), name) == Option::Some(header.len() as int),
    decreases header.len(),
{
    lemma_find_col(header, name);
    if header.len() > 0 {
        lemma_find_col_push_absent(header.drop_first(), name);
        assert(header.push(name).drop_first() =~= header.drop_first().push(name));
    } else {
        assert(header.push(name).first() == name);
    }
}

} // verus!
