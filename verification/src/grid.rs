//! The grid: a row-major dense vector of cells with a cursor, per-column
//! display widths, a used-bounds watermark, rows pinned against sorting, and
//! the whole-grid operations the editor drives — resizing, keystroke edits,
//! sorting, searching, serialization, and the preparation and application of
//! evaluation passes whose expressions an external evaluator executes.
use vstd::prelude::*;

use core::cmp::Ordering;
use crate::cell_content::{
    content_cmp, spec_content_cmp, spec_display, spec_input_err, spec_input_rel, spec_parse_rel,
    spec_scalar_value, spec_serialize_display, CellContent,
};
use crate::cells::{cell_like, Cell, CellPosition};
use crate::formula::{CellError, Value};
use crate::text::{chars_to_string, str_to_chars};
use crate::units::UnitKind;

verus! {

/// The editable grid of cells.
#[derive(Debug)]
pub struct Spreadsheet {
    pub current_cell: CellPosition,
    pub width: usize,
    pub height: usize,
    pub cells: Vec<Cell>,
    pub column_widths: Vec<usize>,
    pub used_cells: CellPosition,
    pub fixed_rows: usize,
    pub path: Option<String>,
}

/// The address of the cell at a row-major index.
pub open spec fn spec_pos_at(i: int, width: int) -> CellPosition {
    CellPosition((i % width) as usize, (i / width) as usize)
}

/// The row-major index of an address.
pub open spec fn spec_index_of(p: CellPosition, width: int) -> int {
    p.1 * width + p.0
}

/// Within the grid, address and row-major index determine each other.
pub proof fn lemma_pos_index_inverse(x: int, y: int, width: int, height: int)
    requires
        0 <= x < width,
        0 <= y < height,
    ensures
        0 <= y * width + x < width * height,
        spec_pos_at(y * width + x, width) == CellPosition(x as usize, y as usize),
{
    assert(0 <= y * width + x < width * height) by (nonlinear_arith)
        requires
            0 <= x < width,
            0 <= y < height,
    ;
    assert((y * width + x) % width == x && (y * width + x) / width == y) by (nonlinear_arith)
        requires
            0 <= x < width,
            0 <= y,
    ;
}

impl Spreadsheet {
    /// The grid's invariant: the cell vector is exactly `width * height`
    /// long, each cell records its own row-major address and is well
    /// formed, there is one display width per column, and the cursor is in
    /// bounds whenever the grid has any cell.
    pub open spec fn wf(self) -> bool {
        &&& self.cells@.len() == self.width * self.height
        &&& self.column_widths@.len() == self.width
        &&& forall|i: int|
            0 <= i < self.cells@.len() ==> (#[trigger] self.cells@[i]).position == spec_pos_at(
                i,
                self.width as int,
            )
        &&& forall|i: int| 0 <= i < self.cells@.len() ==> (#[trigger] self.cells@[i]).wf()
        &&& (self.current_cell.0 < self.width || self.current_cell.0 == 0)
        &&& (self.current_cell.1 < self.height || self.current_cell.1 == 0)
    }

    /// The cells, for contracts.
    pub open spec fn spec_cells(self) -> Seq<Cell> {
        self.cells@
    }

    /// The cursor, for contracts.
    pub open spec fn spec_cursor(self) -> CellPosition {
        self.current_cell
    }

    /// The used-bounds watermark, for contracts.
    pub open spec fn spec_used(self) -> CellPosition {
        self.used_cells
    }

    /// The per-column display widths, for contracts.
    pub open spec fn spec_column_widths(self) -> Seq<usize> {
        self.column_widths@
    }

    /// The count of rows pinned at the top, for contracts.
    pub open spec fn spec_fixed_rows(self) -> int {
        self.fixed_rows as int
    }

    /// The grid's width, for contracts.
    pub open spec fn spec_width(self) -> int {
        self.width as int
    }

    /// The grid's height, for contracts.
    pub open spec fn spec_height(self) -> int {
        self.height as int
    }

    /// A fresh grid of empty cells: the cursor at the origin, every column
    /// ten wide, nothing used, no rows pinned, no source path.
    pub fn new(width: usize, height: usize) -> (r: Spreadsheet)
        requires
            width * height <= usize::MAX,
        ensures
            r.wf(),
            r.spec_width() == width,
            r.spec_height() == height,
            forall|i: int|
                0 <= i < r.spec_cells().len() ==> (#[trigger] r.spec_cells()[i]).content
                    is Empty && r.spec_cells()[i].unit == UnitKind::Plain,
            forall|c: int|
                0 <= c < width ==> #[trigger] r.spec_column_widths()[c] == 10,
            r.spec_cursor() == CellPosition(0, 0),
            r.spec_used() == CellPosition(0, 0),
            r.spec_fixed_rows() == 0,
    {
        let mut cells: Vec<Cell> = Vec::new();
        let mut y: usize = 0;
        while y < height
            invariant
                y <= height,
                width * height <= usize::MAX,
                cells@.len() == y * width,
                forall|i: int|
                    0 <= i < cells@.len() ==> (#[trigger] cells@[i]).position == spec_pos_at(
                        i,
                        width as int,
                    ) && cells@[i].content is Empty && cells@[i].unit == UnitKind::Plain,
            decreases height - y,
        {
            let mut x: usize = 0;
            proof {
                assert((y + 1) * width == y * width + width) by (nonlinear_arith);
                assert(y * width + width <= width * height) by (nonlinear_arith)
                    requires
                        y < height,
                ;
            }
            while x < width
                invariant
                    x <= width,
                    y < height,
                    width * height <= usize::MAX,
                    y * width + width <= width * height,
                    cells@.len() == y * width + x,
                    forall|i: int|
                        0 <= i < cells@.len() ==> (#[trigger] cells@[i]).position == spec_pos_at(
                            i,
                            width as int,
                        ) && cells@[i].content is Empty && cells@[i].unit == UnitKind::Plain,
                decreases width - x,
            {
                let cell = Cell {
                    content: CellContent::Empty,
                    position: CellPosition(x, y),
                    unit: UnitKind::Plain,
                };
                proof {
                    let i = cells@.len() as int;
                    assert(i == y * width + x);
                    assert(i % width as int == x && i / width as int == y) by (nonlinear_arith)
                        requires
                            0 <= x < width,
                            0 <= y,
                            i == y * width + x,
                    ;
                }
                cells.push(cell);
                x += 1;
            }
            y += 1;
            proof {
                assert(y * width == (y - 1) * width + width) by (nonlinear_arith);
            }
        }
        proof {
            assert(height * width == width * height) by (nonlinear_arith);
            assert(forall|i: int| 0 <= i < cells@.len() ==> (#[trigger] cells@[i]).wf());
        }
        let mut column_widths: Vec<usize> = Vec::new();
        let mut c: usize = 0;
        while c < width
            invariant
                c <= width,
                column_widths@.len() == c,
                forall|k: int| 0 <= k < c ==> #[trigger] column_widths@[k] == 10,
            decreases width - c,
        {
            column_widths.push(10);
            c += 1;
        }
        Spreadsheet {
            current_cell: CellPosition(0, 0),
            width,
            height,
            cells,
            column_widths,
            used_cells: CellPosition(0, 0),
            fixed_rows: 0,
            path: None,
        }
    }

    /// The number of columns.
    pub fn columns(&self) -> (r: usize)
        ensures
            r == self.spec_width(),
    {
        self.width
    }

    /// The number of rows.
    pub fn rows(&self) -> (r: usize)
        ensures
            r == self.spec_height(),
    {
        self.height
    }

    /// One column's display width.
    pub fn column_width(&self, column: usize) -> (r: usize)
        requires
            self.wf(),
            column < self.spec_width(),
        ensures
            r == self.spec_column_widths()[column as int],
    {
        self.column_widths[column]
    }

    /// Changes one column's display width.
    pub fn set_column_width(&mut self, column: usize, width: usize)
        requires
            old(self).wf(),
            column < old(self).spec_width(),
        ensures
            final (self).wf(),
            final (self).spec_column_widths() == old(self).spec_column_widths().update(
                column as int,
                width,
            ),
            final (self).spec_cells() == old(self).spec_cells(),
            final (self).spec_cursor() == old(self).spec_cursor(),
            final (self).spec_width() == old(self).spec_width(),
            final (self).spec_height() == old(self).spec_height(),
            final (self).spec_used() == old(self).spec_used(),
            final (self).spec_fixed_rows() == old(self).spec_fixed_rows(),
    {
        let slot = &mut self.column_widths[column];
        *slot = width;
    }

    /// The path the grid was loaded from, if any.
    pub fn path(&self) -> (r: Option<&String>)
        ensures
            match r {
                Some(p) => self.path matches Some(q) && *p == q,
                None => self.path is None,
            },
    {
        self.path.as_ref()
    }

    /// Records the path the grid was loaded from.
    pub fn set_path(&mut self, path: Option<String>)
        ensures
            final (self).path == path,
            final (self).wf() == old(self).wf(),
            final (self).spec_cells() == old(self).spec_cells(),
            final (self).spec_cursor() == old(self).spec_cursor(),
            final (self).spec_width() == old(self).spec_width(),
            final (self).spec_height() == old(self).spec_height(),
            final (self).spec_column_widths() == old(self).spec_column_widths(),
            final (self).spec_used() == old(self).spec_used(),
            final (self).spec_fixed_rows() == old(self).spec_fixed_rows(),
    {
        self.path = path;
    }

    /// The cursor's address.
    pub fn current_cell(&self) -> (r: (usize, usize))
        ensures
            r == (self.spec_cursor().0, self.spec_cursor().1),
    {
        (self.current_cell.0, self.current_cell.1)
    }

    /// Places the cursor on a cell.
    pub fn set_cursor(&mut self, cell_position: (usize, usize))
        requires
            old(self).wf(),
            cell_position.0 < old(self).spec_width(),
            cell_position.1 < old(self).spec_height(),
        ensures
            final (self).wf(),
            final (self).spec_cursor() == CellPosition(cell_position.0, cell_position.1),
            final (self).spec_cells() == old(self).spec_cells(),
            final (self).spec_width() == old(self).spec_width(),
            final (self).spec_height() == old(self).spec_height(),
            final (self).spec_column_widths() == old(self).spec_column_widths(),
            final (self).spec_used() == old(self).spec_used(),
            final (self).spec_fixed_rows() == old(self).spec_fixed_rows(),
    {
        self.current_cell = CellPosition(cell_position.0, cell_position.1);
    }

    /// The row-major index of an address.
    fn index(&self, cell_position: (usize, usize)) -> (r: usize)
        requires
            self.wf(),
            cell_position.0 < self.spec_width(),
            cell_position.1 < self.spec_height(),
        ensures
            r == spec_index_of(
                CellPosition(cell_position.0, cell_position.1),
                self.spec_width(),
            ),
            r < self.spec_cells().len(),
    {
        let n = self.cells.len();
        proof {
            assert(cell_position.1 * self.width as int + cell_position.0 < self.width
                * self.height) by (nonlinear_arith)
                requires
                    cell_position.0 < self.width,
                    cell_position.1 < self.height,
                    0 <= self.width,
            ;
        }
        cell_position.1 * self.width + cell_position.0
    }

    /// The cell at an address.
    pub fn cell_at(&self, cell_position: (usize, usize)) -> (r: &Cell)
        requires
            self.wf(),
            cell_position.0 < self.spec_width(),
            cell_position.1 < self.spec_height(),
        ensures
            *r == self.spec_cells()[spec_index_of(
                CellPosition(cell_position.0, cell_position.1),
                self.spec_width(),
            )],
    {
        let index = self.index(cell_position);
        &self.cells[index]
    }

    /// Replaces the content of the cell at an address.
    pub fn update_cell_at(&mut self, cell_position: (usize, usize), cell_content: CellContent)
        requires
            old(self).wf(),
            cell_position.0 < old(self).spec_width(),
            cell_position.1 < old(self).spec_height(),
            cell_content.wf(),
        ensures
            final (self).wf(),
            final (self).spec_cells() == old(self).spec_cells().update(
                spec_index_of(
                    CellPosition(cell_position.0, cell_position.1),
                    old(self).spec_width(),
                ),
                (Cell {
                    content: cell_content,
                    position: CellPosition(cell_position.0, cell_position.1),
                    unit: old(self).spec_cells()[spec_index_of(
                        CellPosition(cell_position.0, cell_position.1),
                        old(self).spec_width(),
                    )].unit,
                }),
            ),
            final (self).spec_cursor() == old(self).spec_cursor(),
            final (self).spec_width() == old(self).spec_width(),
            final (self).spec_height() == old(self).spec_height(),
            final (self).spec_column_widths() == old(self).spec_column_widths(),
            final (self).spec_used() == old(self).spec_used(),
            final (self).spec_fixed_rows() == old(self).spec_fixed_rows(),
    {
        let index = self.index(cell_position);
        proof {
            lemma_pos_index_inverse(
                cell_position.0 as int,
                cell_position.1 as int,
                old(self).spec_width(),
                old(self).spec_height(),
            );
            assert(old(self).cells@[index as int].position == CellPosition(
                cell_position.0,
                cell_position.1,
            ));
        }
        let cell = &mut self.cells[index];
        cell.content = cell_content;
        proof {
            assert(final (self).wf()) by {
                assert(forall|i: int|
                    0 <= i < self.cells@.len() && i != index ==> self.cells@[i] == old(
                        self,
                    ).cells@[i]);
            }
        }
    }

    /// Changes the display unit of the cell at an address.
    pub fn set_unit_at(&mut self, cell_position: (usize, usize), unit: UnitKind)
        requires
            old(self).wf(),
            cell_position.0 < old(self).spec_width(),
            cell_position.1 < old(self).spec_height(),
        ensures
            final (self).wf(),
            final (self).spec_cells() == old(self).spec_cells().update(
                spec_index_of(
                    CellPosition(cell_position.0, cell_position.1),
                    old(self).spec_width(),
                ),
                (Cell {
                    content: old(self).spec_cells()[spec_index_of(
                        CellPosition(cell_position.0, cell_position.1),
                        old(self).spec_width(),
                    )].content,
                    position: CellPosition(cell_position.0, cell_position.1),
                    unit: unit,
                }),
            ),
            final (self).spec_cursor() == old(self).spec_cursor(),
            final (self).spec_width() == old(self).spec_width(),
            final (self).spec_height() == old(self).spec_height(),
            final (self).spec_column_widths() == old(self).spec_column_widths(),
            final (self).spec_used() == old(self).spec_used(),
            final (self).spec_fixed_rows() == old(self).spec_fixed_rows(),
    {
        let index = self.index(cell_position);
        proof {
            lemma_pos_index_inverse(
                cell_position.0 as int,
                cell_position.1 as int,
                old(self).spec_width(),
                old(self).spec_height(),
            );
            assert(old(self).cells@[index as int].position == CellPosition(
                cell_position.0,
                cell_position.1,
            ));
        }
        let cell = &mut self.cells[index];
        cell.unit = unit;
        proof {
            assert(final (self).wf()) by {
                assert(forall|i: int|
                    0 <= i < self.cells@.len() && i != index ==> self.cells@[i] == old(
                        self,
                    ).cells@[i]);
            }
        }
    }

    /// Empties the cell under the cursor.
    pub fn clear_current_cell(&mut self)
        requires
            old(self).wf(),
            old(self).spec_width() > 0,
            old(self).spec_height() > 0,
        ensures
            final (self).wf(),
            final (self).spec_cells() == old(self).spec_cells().update(
                spec_index_of(old(self).spec_cursor(), old(self).spec_width()),
                (Cell {
                    content: CellContent::Empty,
                    position: old(self).spec_cursor(),
                    unit: old(self).spec_cells()[spec_index_of(
                        old(self).spec_cursor(),
                        old(self).spec_width(),
                    )].unit,
                }),
            ),
            final (self).spec_cursor() == old(self).spec_cursor(),
            final (self).spec_width() == old(self).spec_width(),
            final (self).spec_height() == old(self).spec_height(),
            final (self).spec_column_widths() == old(self).spec_column_widths(),
            final (self).spec_used() == old(self).spec_used(),
            final (self).spec_fixed_rows() == old(self).spec_fixed_rows(),
    {
        let cur = self.current_cell();
        self.update_cell_at(cur, CellContent::Empty);
    }

    /// Feeds one typed character into the cell under the cursor, moving the
    /// used-bounds watermark up to the cursor first. When the edit is
    /// rejected the grid is unchanged.
    pub fn input_char(&mut self, ch: char) -> (r: Result<(), CellError>)
        requires
            old(self).wf(),
            old(self).spec_width() > 0,
            old(self).spec_height() > 0,
        ensures
            final (self).spec_cursor() == old(self).spec_cursor(),
            final (self).spec_width() == old(self).spec_width(),
            final (self).spec_height() == old(self).spec_height(),
            final (self).spec_column_widths() == old(self).spec_column_widths(),
            final (self).spec_fixed_rows() == old(self).spec_fixed_rows(),
            match r {
                Ok(()) => {
                    let idx = spec_index_of(old(self).spec_cursor(), old(self).spec_width());
                    let oldcell = old(self).spec_cells()[idx];
                    &&& final (self).wf()
                    &&& final (self).spec_used() == CellPosition(
                        if old(self).spec_cursor().0 > old(self).spec_used().0 {
                            old(self).spec_cursor().0
                        } else {
                            old(self).spec_used().0
                        },
                        if old(self).spec_cursor().1 > old(self).spec_used().1 {
                            old(self).spec_cursor().1
                        } else {
                            old(self).spec_used().1
                        },
                    )
                    &&& final (self).spec_cells().len() == old(self).spec_cells().len()
                    &&& forall|i: int|
                        0 <= i < old(self).spec_cells().len() && i != idx
                            ==> final (self).spec_cells()[i] == old(self).spec_cells()[i]
                    &&& final (self).spec_cells()[idx].position == oldcell.position
                    &&& final (self).spec_cells()[idx].unit == oldcell.unit
                    &&& spec_input_rel(
                        oldcell.content,
                        ch,
                        old(self).spec_cursor(),
                        old(self).spec_width() as nat,
                        final (self).spec_cells()[idx].content,
                    )
                },
                Err(e) => {
                    let idx = spec_index_of(old(self).spec_cursor(), old(self).spec_width());
                    &&& final (self).wf()
                    &&& final (self).spec_cells() == old(self).spec_cells()
                    &&& final (self).spec_used() == old(self).spec_used()
                    &&& spec_input_err(
                        old(self).spec_cells()[idx].content,
                        ch,
                        old(self).spec_width() as nat,
                        e,
                    )
                },
            },
    {
        let cur = self.current_cell;
        let size = (self.width, self.height);
        let index = self.index((cur.0, cur.1));
        let cell = &mut self.cells[index];
        match cell.content.input_char(ch, cur, size) {
            Ok(()) => {
                let nx = if cur.0 > self.used_cells.0 {
                    cur.0
                } else {
                    self.used_cells.0
                };
                let ny = if cur.1 > self.used_cells.1 {
                    cur.1
                } else {
                    self.used_cells.1
                };
                self.used_cells = CellPosition(nx, ny);
                proof {
                    assert(final (self).wf()) by {
                        assert(forall|i: int|
                            0 <= i < self.cells@.len() && i != index ==> self.cells@[i] == old(
                                self,
                            ).cells@[i]);
                    }
                }
                Ok(())
            },
            Err(e) => {
                proof {
                    assert(self.cells@ =~= old(self).cells@);
                }
                Err(e)
            },
        }
    }

    /// Moves the cursor by a signed offset, clamping to the grid; the
    /// result says whether the move stayed in bounds on both axes.
    pub fn move_cursor(&mut self, x: isize, y: isize) -> (r: bool)
        requires
            old(self).wf(),
            old(self).spec_width() > 0,
            old(self).spec_height() > 0,
            old(self).spec_width() <= isize::MAX,
            old(self).spec_height() <= isize::MAX,
            old(self).spec_cursor().0 + x <= isize::MAX,
            old(self).spec_cursor().1 + y <= isize::MAX,
        ensures
            final (self).wf(),
            ({
                let tx = old(self).spec_cursor().0 + x;
                let ty = old(self).spec_cursor().1 + y;
                let w = old(self).spec_width();
                let h = old(self).spec_height();
                &&& r == (0 <= tx < w && 0 <= ty < h)
                &&& final (self).spec_cursor().0 == if tx < 0 {
                    0
                } else if tx >= w {
                    w - 1
                } else {
                    tx
                }
                &&& final (self).spec_cursor().1 == if ty < 0 {
                    0
                } else if ty >= h {
                    h - 1
                } else {
                    ty
                }
            }),
            final (self).spec_cells() == old(self).spec_cells(),
            final (self).spec_width() == old(self).spec_width(),
            final (self).spec_height() == old(self).spec_height(),
            final (self).spec_column_widths() == old(self).spec_column_widths(),
            final (self).spec_used() == old(self).spec_used(),
            final (self).spec_fixed_rows() == old(self).spec_fixed_rows(),
    {
        let mut result = true;
        let tx = self.current_cell.0 as isize + x;
        let ty = self.current_cell.1 as isize + y;
        let nx: usize = if tx < 0 {
            result = false;
            0
        } else if tx as usize >= self.width {
            result = false;
            self.width - 1
        } else {
            tx as usize
        };
        let ny: usize = if ty < 0 {
            result = false;
            0
        } else if ty as usize >= self.height {
            result = false;
            self.height - 1
        } else {
            ty as usize
        };
        self.current_cell = CellPosition(nx, ny);
        result
    }

    /// Grows the grid. Shrinking is not supported: the new size must cover
    /// the old on both axes. Existing cells keep their content and unit; new
    /// cells are empty; new columns get the default display width.
    pub fn resize(&mut self, width: usize, height: usize)
        requires
            old(self).wf(),
            width >= old(self).spec_width(),
            height >= old(self).spec_height(),
            width * height <= usize::MAX,
        ensures
            final (self).wf(),
            final (self).spec_width() == width,
            final (self).spec_height() == height,
            forall|x: int, y: int|
                0 <= x < width && 0 <= y < height ==> #[trigger] final (self).spec_cells()[y
                    * width + x] == (if x < old(self).spec_width() && y < old(
                    self,
                ).spec_height() {
                    old(self).spec_cells()[y * old(self).spec_width() + x]
                } else {
                    Cell {
                        content: CellContent::Empty,
                        position: CellPosition(x as usize, y as usize),
                        unit: UnitKind::Plain,
                    }
                }),
            final (self).spec_column_widths().len() == width,
            forall|c: int|
                0 <= c < width ==> #[trigger] final (self).spec_column_widths()[c] == (if c < old(
                    self,
                ).spec_width() {
                    old(self).spec_column_widths()[c]
                } else {
                    10
                }),
            final (self).spec_cursor() == old(self).spec_cursor(),
            final (self).spec_used() == old(self).spec_used(),
            final (self).spec_fixed_rows() == old(self).spec_fixed_rows(),
    {
        let ghost old_cells = self.cells@;
        let ghost ow = self.width as int;
        let ghost oh = self.height as int;
        let ow_exec = self.width;
        let oh_exec = self.height;
        let mut taken: Vec<Cell> = Vec::new();
        core::mem::swap(&mut taken, &mut self.cells);
        let mut new_cells: Vec<Cell> = Vec::new();
        let mut y: usize = 0;
        proof {
            if 0 < oh {
                assert(old_cells.subrange(0, ow * oh) =~= old_cells);
            } else {
                assert(ow * oh == 0) by (nonlinear_arith)
                    requires
                        oh == 0,
                ;
                assert(old_cells =~= Seq::<Cell>::empty());
            }
        }
        while y < height
            invariant
                y <= height,
                width * height <= usize::MAX,
                ow == old(self).spec_width(),
                oh == old(self).spec_height(),
                ow_exec == ow,
                oh_exec == oh,
                old_cells == old(self).spec_cells(),
                old_cells.len() == ow * oh,
                width >= ow,
                height >= oh,
                forall|i: int|
                    0 <= i < old_cells.len() ==> (#[trigger] old_cells[i]).position == spec_pos_at(
                        i,
                        ow,
                    ) && old_cells[i].wf(),
                taken@ == if y < oh {
                    old_cells.subrange(y * ow, ow * oh)
                } else {
                    Seq::<Cell>::empty()
                },
                new_cells@.len() == y * width,
                forall|x: int, yy: int|
                    0 <= x < width && 0 <= yy < y ==> #[trigger] new_cells@[yy * width + x] == (
                    if x < ow && yy < oh {
                        old_cells[yy * ow + x]
                    } else {
                        Cell {
                            content: CellContent::Empty,
                            position: CellPosition(x as usize, yy as usize),
                            unit: UnitKind::Plain,
                        }
                    }),
            decreases height - y,
        {
            let ghost row_base = new_cells@.len() as int;
            proof {
                assert(row_base == y * width);
                assert((y + 1) * width == y * width + width) by (nonlinear_arith);
                assert(y * width + width <= width * height) by (nonlinear_arith)
                    requires
                        y < height,
                ;
            }
            let mut x: usize = 0;
            proof {
                if y < oh && ow == 0 {
                    assert(y * ow == 0 && (y + 1) * ow == 0 && ow * oh == 0) by (nonlinear_arith)
                        requires
                            ow == 0,
                    ;
                    assert(old_cells.subrange(y * ow, ow * oh) =~= old_cells.subrange(
                        (y + 1) * ow,
                        ow * oh,
                    ));
                }
            }
            while x < width
                invariant
                    x <= width,
                    y < height,
                    width * height <= usize::MAX,
                    row_base == y * width,
                    row_base + width <= width * height,
                    ow == old(self).spec_width(),
                    oh == old(self).spec_height(),
                    ow_exec == ow,
                    oh_exec == oh,
                    old_cells == old(self).spec_cells(),
                    old_cells.len() == ow * oh,
                    width >= ow,
                    height >= oh,
                    forall|i: int|
                        0 <= i < old_cells.len() ==> (#[trigger] old_cells[i]).position
                            == spec_pos_at(i, ow) && old_cells[i].wf(),
                    taken@ == if y < oh && x < ow {
                        old_cells.subrange(y * ow + x, ow * oh)
                    } else if y < oh {
                        old_cells.subrange((y + 1) * ow, ow * oh)
                    } else {
                        Seq::<Cell>::empty()
                    },
                    new_cells@.len() == row_base + x,
                    forall|i: int|
                        row_base <= i < new_cells@.len() ==> #[trigger] new_cells@[i] == (
                        if (i - row_base) < ow && y < oh {
                            old_cells[y * ow + (i - row_base)]
                        } else {
                            Cell {
                                content: CellContent::Empty,
                                position: CellPosition((i - row_base) as usize, y as usize),
                                unit: UnitKind::Plain,
                            }
                        }),
                    forall|xx: int, yy: int|
                        0 <= xx < width && 0 <= yy < y ==> #[trigger] new_cells@[yy * width + xx]
                            == (if xx < ow && yy < oh {
                            old_cells[yy * ow + xx]
                        } else {
                            Cell {
                                content: CellContent::Empty,
                                position: CellPosition(xx as usize, yy as usize),
                                unit: UnitKind::Plain,
                            }
                        }),
                decreases width - x,
            {
        if x < ow_exec && y < oh_exec {
                    proof {
                        assert(y * ow + x < ow * oh) by (nonlinear_arith)
                            requires
                                0 <= x < ow,
                                0 <= y < oh,
                        ;
                        assert((y + 1) * ow == y * ow + ow) by (nonlinear_arith);
                    }
                    let moved = taken.remove(0);
                    proof {
                        assert(moved == old_cells[y * ow + x]);
                        assert(taken@ =~= old_cells.subrange(y * ow + x + 1, ow * oh));
                    }
                    new_cells.push(moved);
                } else {
                    new_cells.push(
                        Cell {
                            content: CellContent::Empty,
                            position: CellPosition(x, y),
                            unit: UnitKind::Plain,
                        },
                    );
                    proof {
                        if y < oh && x == ow {
                            assert(taken@ =~= old_cells.subrange((y + 1) * ow, ow * oh));
                        }
                    }
                }
                x += 1;
                proof {
                    if y < oh && x == ow {
                        assert((y + 1) * ow == y * ow + ow) by (nonlinear_arith);
                        assert(old_cells.subrange(y * ow + x, ow * oh) =~= old_cells.subrange(
                            (y + 1) * ow,
                            ow * oh,
                        ));
                    }
                    assert forall|xx: int, yy: int|
                        0 <= xx < width && 0 <= yy < y implies #[trigger] new_cells@[yy * width
                        + xx] == (if xx < ow && yy < oh {
                        old_cells[yy * ow + xx]
                    } else {
                        Cell {
                            content: CellContent::Empty,
                            position: CellPosition(xx as usize, yy as usize),
                            unit: UnitKind::Plain,
                        }
                    }) by {
                        assert(yy * width + xx < row_base) by (nonlinear_arith)
                            requires
                                0 <= xx < width,
                                0 <= yy,
                                yy < y,
                                row_base == y * width,
                        ;
                    }
                }
            }
            y += 1;
            proof {
                assert(y * width == row_base + width) by (nonlinear_arith)
                    requires
                        row_base == (y - 1) * width,
                ;
                if y - 1 < oh {
                    assert((y - 1) * ow + ow == y * ow) by (nonlinear_arith);
                    if y == oh {
                        assert(y * ow == ow * oh) by (nonlinear_arith)
                            requires
                                y == oh,
                        ;
                        assert(old_cells.subrange(y * ow, ow * oh) =~= Seq::<Cell>::empty());
                    }
                }
                assert forall|xx: int, yy: int|
                    0 <= xx < width && 0 <= yy < y implies #[trigger] new_cells@[yy * width + xx]
                    == (if xx < ow && yy < oh {
                    old_cells[yy * ow + xx]
                } else {
                    Cell {
                        content: CellContent::Empty,
                        position: CellPosition(xx as usize, yy as usize),
                        unit: UnitKind::Plain,
                    }
                }) by {
                    if yy == y - 1 {
                        assert(new_cells@[yy * width + xx] == new_cells@[row_base + xx]);
                    }
                }
            }
        }
        let ghost built = new_cells@;
        proof {
            assert(built.len() == height * width);
            assert forall|x: int, yv: int|
                0 <= x < width && 0 <= yv < height implies #[trigger] built[yv * width + x] == (
            if x < ow && yv < oh {
                old_cells[yv * ow + x]
            } else {
                Cell {
                    content: CellContent::Empty,
                    position: CellPosition(x as usize, yv as usize),
                    unit: UnitKind::Plain,
                }
            }) by {
                assert(new_cells@[yv * width + x] == built[yv * width + x]);
            }
        }
        let mut c: usize = self.column_widths.len();
        while c < width
            invariant
                old(self).spec_width() <= c <= width,
                self.column_widths@.len() == c,
                self.current_cell == old(self).current_cell,
                self.used_cells == old(self).used_cells,
                self.fixed_rows == old(self).fixed_rows,
                self.path == old(self).path,
                forall|k: int|
                    0 <= k < c ==> #[trigger] self.column_widths@[k] == (if k < old(
                        self,
                    ).spec_width() {
                        old(self).spec_column_widths()[k]
                    } else {
                        10
                    }),
            decreases width - c,
        {
            self.column_widths.push(10);
            c += 1;
        }
        self.cells = new_cells;
        self.width = width;
        self.height = height;
        proof {
            assert(self.cells@ == built);
            assert(height * width == width * height) by (nonlinear_arith);
            assert forall|x: int, yv: int|
                0 <= x < width && 0 <= yv < height implies #[trigger] self.cells@[yv * width + x]
                == (if x < ow && yv < oh {
                old_cells[yv * ow + x]
            } else {
                Cell {
                    content: CellContent::Empty,
                    position: CellPosition(x as usize, yv as usize),
                    unit: UnitKind::Plain,
                }
            }) by {
                assert(self.cells@[yv * width + x] == built[yv * width + x]);
                assert(built[yv * width + x] == (if x < ow && yv < oh {
                    old_cells[yv * ow + x]
                } else {
                    Cell {
                        content: CellContent::Empty,
                        position: CellPosition(x as usize, yv as usize),
                        unit: UnitKind::Plain,
                    }
                }));
            }
            assert(final (self).wf()) by {
                assert forall|i: int|
                    0 <= i < self.cells@.len() implies (#[trigger] self.cells@[i]).position
                    == spec_pos_at(i, width as int) && self.cells@[i].wf() by {
                    let xx = i % width as int;
                    let yy = i / width as int;
                    assert(yy * width + xx == i) by (nonlinear_arith)
                        requires
                            width > 0,
                            xx == i % width as int,
                            yy == i / width as int,
                    ;
                    assert(0 <= xx < width && 0 <= yy < height) by (nonlinear_arith)
                        requires
                            width > 0,
                            0 <= i < width * height,
                            xx == i % width as int,
                            yy == i / width as int,
                    ;
                    assert(self.cells@[yy * width as int + xx] == (if xx < ow && yy < oh {
                        old_cells[yy * ow + xx]
                    } else {
                        Cell {
                            content: CellContent::Empty,
                            position: CellPosition(xx as usize, yy as usize),
                            unit: UnitKind::Plain,
                        }
                    }));
                    if xx < ow && yy < oh {
                        assert(0 <= yy * ow + xx < ow * oh) by (nonlinear_arith)
                            requires
                                0 <= xx < ow,
                                0 <= yy < oh,
                        ;
                        assert(old_cells[yy * ow + xx].position == spec_pos_at(yy * ow + xx, ow));
                        assert((yy * ow + xx) % ow == xx && (yy * ow + xx) / ow == yy)
                            by (nonlinear_arith)
                            requires
                                0 <= xx < ow,
                                0 <= yy,
                        ;
                    }
                }
            }
        }
    }

    /// Pins the first rows of the grid: they are excluded from sorting.
    pub fn fix_rows(&mut self, fixed_rows: usize)
        requires
            old(self).wf(),
        ensures
            final (self).wf(),
            final (self).spec_fixed_rows() == fixed_rows,
            final (self).spec_cells() == old(self).spec_cells(),
            final (self).spec_cursor() == old(self).spec_cursor(),
            final (self).spec_width() == old(self).spec_width(),
            final (self).spec_height() == old(self).spec_height(),
            final (self).spec_column_widths() == old(self).spec_column_widths(),
            final (self).spec_used() == old(self).spec_used(),
    {
        self.fixed_rows = fixed_rows;
    }

    /// Whether any cell holds a formula, so that evaluation passes are
    /// worth running.
    pub fn needs_evaluation(&self) -> (r: bool)
        ensures
            r == exists|i: int|
                0 <= i < self.spec_cells().len() && (#[trigger] self.spec_cells()[i]).content
                    is Formula,
    {
        let mut i: usize = 0;
        while i < self.cells.len()
            invariant
                i <= self.cells@.len(),
                forall|j: int| 0 <= j < i ==> !((#[trigger] self.cells@[j]).content is Formula),
            decreases self.cells@.len() - i,
        {
            if matches!(self.cells[i].content, CellContent::Formula(_)) {
                return true;
            }
            i += 1;
        }
        false
    }

    /// Searches for a text cell containing the given text, scanning from
    /// just past the cursor and wrapping around, the cursor's own cell
    /// excluded; the first hit's address comes back.
    pub fn find(&self, text: &str) -> (r: Option<(usize, usize)>)
        requires
            self.wf(),
            self.spec_width() > 0,
            self.spec_height() > 0,
        ensures
            r == match spec_find_cell(*self, text@, 0) {
                Some(ci) => Some(
                    (self.spec_cells()[ci].position.0, self.spec_cells()[ci].position.1),
                ),
                None => None::<(usize, usize)>,
            },
    {
        let needle = str_to_chars(text);
        let len = self.cells.len();
        let start = self.index((self.current_cell.0, self.current_cell.1));
        let mut k: usize = 0;
        while k < len - 1
            invariant
                k <= len - 1,
                len == self.spec_cells().len(),
                len == self.spec_width() * self.spec_height(),
                len > 0,
                needle@ == text@,
                self.wf(),
                start == spec_index_of(self.spec_cursor(), self.spec_width()),
                start < len,
                spec_find_cell(*self, text@, 0) == spec_find_cell(*self, text@, k as int),
            decreases len - 1 - k,
        {
            let rem = len - 1 - start;
            let ci = if k < rem {
                start + 1 + k
            } else {
                k - rem
            };
            let cell = &self.cells[ci];
            let hit = match &cell.content {
                CellContent::Text(s) => {
                    let hay = str_to_chars(s.as_str());
                    match crate::formula::find_from(hay.as_slice(), needle.as_slice(), 0) {
                        Some(_) => true,
                        None => false,
                    }
                },
                _ => false,
            };
            if hit {
                return Some((cell.position.0, cell.position.1));
            }
            k += 1;
        }
        None
    }

    /// Sets a column's display width to fit its widest cell, plus one
    /// column of slack.
    pub fn fit_column_width(&mut self, column: usize)
        requires
            old(self).wf(),
            column < old(self).spec_width(),
        ensures
            final (self).wf(),
            ({
                let m = spec_col_max_width(*old(self), column as int, old(self).spec_height());
                final (self).spec_column_widths() == old(self).spec_column_widths().update(
                    column as int,
                    (if m < usize::MAX {
                        (m + 1) as usize
                    } else {
                        m as usize
                    }),
                )
            }),
            final (self).spec_cells() == old(self).spec_cells(),
            final (self).spec_cursor() == old(self).spec_cursor(),
            final (self).spec_width() == old(self).spec_width(),
            final (self).spec_height() == old(self).spec_height(),
            final (self).spec_used() == old(self).spec_used(),
            final (self).spec_fixed_rows() == old(self).spec_fixed_rows(),
    {
        let mut best: usize = 0;
        let mut y: usize = 0;
        while y < self.height
            invariant
                y <= self.spec_height(),
                self.wf(),
                column < self.spec_width(),
                best == spec_col_max_width(*self, column as int, y as int),
            decreases self.spec_height() - y,
        {
            let idx = self.index((column, y));
            let text = self.cells[idx].content.display();
            let w = crate::text::str_width(text.as_str());
            if w > best {
                best = w;
            }
            y += 1;
        }
        let target = if best < usize::MAX {
            best + 1
        } else {
            best
        };
        self.set_column_width(column, target);
    }

    /// The grid's cells, one vector per row.
    pub fn as_rows(&self) -> (r: Vec<Vec<Cell>>)
        requires
            self.wf(),
        ensures
            r@.len() == self.spec_height(),
            forall|y: int|
                0 <= y < self.spec_height() ==> (#[trigger] r@[y])@.len() == self.spec_width(),
            forall|y: int, x: int|
                0 <= y < self.spec_height() && 0 <= x < self.spec_width() ==> cell_like(
                    #[trigger] (r@[y])@[x],
                    self.spec_cells()[y * self.spec_width() + x],
                ),
    {
        let mut rows: Vec<Vec<Cell>> = Vec::new();
        let mut y: usize = 0;
        while y < self.height
            invariant
                y <= self.spec_height(),
                self.wf(),
                rows@.len() == y,
                forall|yy: int|
                    0 <= yy < y ==> (#[trigger] rows@[yy])@.len() == self.spec_width(),
                forall|yy: int, x: int|
                    0 <= yy < y && 0 <= x < self.spec_width() ==> cell_like(
                        #[trigger] (rows@[yy])@[x],
                        self.spec_cells()[yy * self.spec_width() + x],
                    ),
            decreases self.spec_height() - y,
        {
            let mut row: Vec<Cell> = Vec::new();
            let mut x: usize = 0;
            while x < self.width
                invariant
                    x <= self.spec_width(),
                    y < self.spec_height(),
                    self.wf(),
                    row@.len() == x,
                    forall|xx: int|
                        0 <= xx < x ==> cell_like(
                            #[trigger] row@[xx],
                            self.spec_cells()[y * self.spec_width() + xx],
                        ),
                decreases self.spec_width() - x,
            {
                let idx = self.index((x, y));
                row.push(self.cells[idx].duplicate());
                x += 1;
            }
            rows.push(row);
            y += 1;
        }
        rows
    }

    /// Serializes the used part of the grid as comma-separated text: each
    /// cell's serialized form followed by a comma, rows after the first led
    /// in by a line feed. Only rows and columns within the used-bounds
    /// watermark are written.
    pub fn serialize_as_csv(&self) -> (r: String)
        requires
            self.wf(),
        ensures
            r@ == spec_csv_rows(*self, 0),
    {
        let ylim = if self.used_cells.1 >= self.height {
            self.height
        } else {
            self.used_cells.1 + 1
        };
        let xlim = if self.used_cells.0 >= self.width {
            self.width
        } else {
            self.used_cells.0 + 1
        };
        let mut out: Vec<char> = Vec::new();
        let mut y: usize = 0;
        proof {
            assert(out@ + spec_csv_rows(*self, 0) =~= spec_csv_rows(*self, 0));
        }
        while y < ylim
            invariant
                y <= ylim,
                self.wf(),
                ylim == spec_ylim(*self),
                xlim == spec_xlim(*self),
                spec_csv_rows(*self, 0) == out@ + spec_csv_rows(*self, y as int),
            decreases ylim - y,
        {
            if xlim > 0 {
                if y != 0 {
                    out.push('\n');
                }
                let ghost row_start = out@;
                let mut x: usize = 0;
                proof {
                    assert(row_start + spec_csv_row(*self, y as int, 0) =~= row_start
                        + spec_csv_row(*self, y as int, 0));
                }
                while x < xlim
                    invariant
                        x <= xlim,
                        y < ylim,
                        self.wf(),
                        ylim == spec_ylim(*self),
                        xlim == spec_xlim(*self),
                        out@ == row_start + spec_csv_row(*self, y as int, 0).subrange(
                            0,
                            out@.len() - row_start.len(),
                        ),
                        out@.len() >= row_start.len(),
                        spec_csv_row(*self, y as int, 0) == spec_csv_row(
                            *self,
                            y as int,
                            0,
                        ).subrange(0, out@.len() - row_start.len()) + spec_csv_row(
                            *self,
                            y as int,
                            x as int,
                        ),
                    decreases xlim - x,
                {
                    let idx = self.index((x, y));
                    let text = self.cells[idx].content.serialize_display();
                    let mut chunk = str_to_chars(text.as_str());
                    out.append(&mut chunk);
                    out.push(',');
                    proof {
                        lemma_csv_row_step(*self, y as int, x as int);
                    }
                    x += 1;
                }
                proof {
                    assert(spec_csv_row(*self, y as int, xlim as int) =~= Seq::<char>::empty());
                    assert(out@ =~= row_start + spec_csv_row(*self, y as int, 0));
                }
            }
            y += 1;
            proof {
                lemma_csv_rows_step(*self, (y - 1) as int);
            }
        }
        proof {
            assert(spec_csv_rows(*self, ylim as int) =~= Seq::<char>::empty());
            assert(out@ =~= spec_csv_rows(*self, 0));
        }
        chars_to_string(out.as_slice())
    }
}

/// The first row past the used watermark, capped at the grid height.
pub open spec fn spec_ylim(s: Spreadsheet) -> int {
    if s.spec_used().1 + 1 < s.spec_height() {
        s.spec_used().1 + 1
    } else {
        s.spec_height()
    }
}

/// The first column past the used watermark, capped at the grid width.
pub open spec fn spec_xlim(s: Spreadsheet) -> int {
    if s.spec_used().0 + 1 < s.spec_width() {
        s.spec_used().0 + 1
    } else {
        s.spec_width()
    }
}

/// One serialized row from column `x` on: each cell's serialized form and a
/// comma.
pub open spec fn spec_csv_row(s: Spreadsheet, y: int, x: int) -> Seq<char>
    decreases spec_xlim(s) - x,
{
    if x < 0 || x >= spec_xlim(s) {
        Seq::empty()
    } else {
        spec_serialize_display(s.spec_cells()[y * s.spec_width() + x].content) + seq![',']
            + spec_csv_row(s, y, x + 1)
    }
}

/// The serialized rows from `y` on, each after the first preceded by a line
/// feed; rows are skipped entirely when no column is within the watermark.
pub open spec fn spec_csv_rows(s: Spreadsheet, y: int) -> Seq<char>
    decreases spec_ylim(s) - y,
{
    if y < 0 || y >= spec_ylim(s) {
        Seq::empty()
    } else {
        let lead: Seq<char> = if y != 0 && spec_xlim(s) > 0 {
            seq!['\n']
        } else {
            Seq::empty()
        };
        lead + spec_csv_row(s, y, 0) + spec_csv_rows(s, y + 1)
    }
}

/// Splitting one serialized row after a cell.
proof fn lemma_csv_row_step(s: Spreadsheet, y: int, x: int)
    requires
        0 <= x < spec_xlim(s),
    ensures
        spec_csv_row(s, y, x) == (spec_serialize_display(
            s.spec_cells()[y * s.spec_width() + x].content,
        ) + seq![',']) + spec_csv_row(s, y, x + 1),
{
    assert(spec_csv_row(s, y, x) =~= (spec_serialize_display(
        s.spec_cells()[y * s.spec_width() + x].content,
    ) + seq![',']) + spec_csv_row(s, y, x + 1));
}

/// Splitting the serialized rows after one row.
proof fn lemma_csv_rows_step(s: Spreadsheet, y: int)
    requires
        0 <= y < spec_ylim(s),
    ensures
        spec_csv_rows(s, y) == (if y != 0 && spec_xlim(s) > 0 {
            seq!['\n']
        } else {
            Seq::<char>::empty()
        }) + spec_csv_row(s, y, 0) + spec_csv_rows(s, y + 1),
{
}

/// The cell index `find` stops at when scanning from offset `k` past the
/// cursor: the first cell, in wrap-around order and the cursor's own cell
/// excluded, whose text contains the sought text.
pub open spec fn spec_find_cell(s: Spreadsheet, text: Seq<char>, k: int) -> Option<int>
    decreases s.spec_cells().len() - 1 - k,
{
    let len = s.spec_cells().len() as int;
    if k < 0 || k >= len - 1 {
        None
    } else {
        let start = spec_index_of(s.spec_cursor(), s.spec_width());
        let ci = if start + 1 + k < len {
            start + 1 + k
        } else {
            start + 1 + k - len
        };
        if spec_cell_matches(s.spec_cells()[ci], text) {
            Some(ci)
        } else {
            spec_find_cell(s, text, k + 1)
        }
    }
}

/// Whether a cell is a text cell containing the sought text.
pub open spec fn spec_cell_matches(c: Cell, text: Seq<char>) -> bool {
    c.content matches CellContent::Text(s) && crate::formula::spec_find(s@, text, 0) is Some
}

/// The widest displayed form in a column among the first `ylim` rows.
pub open spec fn spec_col_max_width(s: Spreadsheet, column: int, ylim: int) -> nat
    decreases ylim,
{
    if ylim <= 0 {
        0
    } else {
        let w = crate::text::spec_display_width(
            spec_display(s.spec_cells()[(ylim - 1) * s.spec_width() + column].content),
        );
        let rest = spec_col_max_width(s, column, ylim - 1);
        if w > rest {
            w
        } else {
            rest
        }
    }
}

/// The grid's cells grouped into rows.
pub open spec fn rows_of(cells: Seq<Cell>, width: int, height: int) -> Seq<Seq<Cell>> {
    Seq::new(height as nat, |y: int| Seq::new(width as nat, |x: int| cells[y * width + x]))
}

/// The views of a list of row vectors.
pub open spec fn views_of(v: Seq<Vec<Cell>>) -> Seq<Seq<Cell>> {
    v.map_values(|r: Vec<Cell>| r@)
}

/// Every cell of every row is well formed.
pub open spec fn rows_wf(rows: Seq<Seq<Cell>>) -> bool {
    forall|y: int, x: int|
        0 <= y < rows.len() && 0 <= x < rows[y].len() ==> (#[trigger] rows[y][x]).wf()
}

/// Every row has the given width.
pub open spec fn rows_width(rows: Seq<Seq<Cell>>, width: int) -> bool {
    forall|y: int| 0 <= y < rows.len() ==> (#[trigger] rows[y]).len() == width
}

/// A row inserted into already-ordered rows, scanning from the end: it
/// passes every row whose key cell compares greater, and lands after equal
/// keys, keeping the sort stable.
pub open spec fn insert_row(sorted: Seq<Seq<Cell>>, row: Seq<Cell>, column: int) -> Seq<Seq<Cell>>
    decreases sorted.len(),
{
    if sorted.len() == 0 {
        seq![row]
    } else if spec_content_cmp(row[column].content, sorted.last()[column].content) is Less {
        insert_row(sorted.drop_last(), row, column).push(sorted.last())
    } else {
        sorted.push(row)
    }
}

/// Rows ordered by insertion sort on the key column's content.
pub open spec fn sort_rows(rows: Seq<Seq<Cell>>, column: int) -> Seq<Seq<Cell>>
    decreases rows.len(),
{
    if rows.len() == 0 {
        Seq::empty()
    } else {
        insert_row(sort_rows(rows.drop_last(), column), rows.last(), column)
    }
}

/// The rows in reverse order.
pub open spec fn rev_rows(rows: Seq<Seq<Cell>>) -> Seq<Seq<Cell>>
    decreases rows.len(),
{
    if rows.len() == 0 {
        Seq::empty()
    } else {
        seq![rows.last()] + rev_rows(rows.drop_last())
    }
}

/// The rows joined back into one row-major cell list.
pub open spec fn flat_rows(rows: Seq<Seq<Cell>>) -> Seq<Cell>
    decreases rows.len(),
{
    if rows.len() == 0 {
        Seq::empty()
    } else {
        flat_rows(rows.drop_last()) + rows.last()
    }
}

/// Every cell stamped with the address of its own slot.
pub open spec fn renumber(cells: Seq<Cell>, width: int) -> Seq<Cell> {
    Seq::new(
        cells.len(),
        |i: int|
            Cell {
                content: cells[i].content,
                position: spec_pos_at(i, width),
                unit: cells[i].unit,
            },
    )
}

/// Where the backward scan stops is where the ordered insertion lands.
proof fn lemma_insert_row_at(sorted: Seq<Seq<Cell>>, row: Seq<Cell>, column: int, k: int)
    requires
        0 <= k <= sorted.len(),
        forall|j: int|
            k <= j < sorted.len() ==> spec_content_cmp(
                row[column].content,
                (#[trigger] sorted[j])[column].content,
            ) is Less,
        k > 0 ==> !(spec_content_cmp(row[column].content, sorted[k - 1][column].content) is Less),
    ensures
        insert_row(sorted, row, column) == sorted.subrange(0, k) + seq![row] + sorted.subrange(
            k,
            sorted.len() as int,
        ),
    decreases sorted.len(),
{
    if sorted.len() == 0 {
        assert(insert_row(sorted, row, column) =~= sorted.subrange(0, k) + seq![row]
            + sorted.subrange(k, sorted.len() as int));
    } else if spec_content_cmp(row[column].content, sorted.last()[column].content) is Less {
        assert(k < sorted.len());
        assert(forall|j: int|
            0 <= j < sorted.len() - 1 ==> #[trigger] sorted.drop_last()[j] == sorted[j]);
        lemma_insert_row_at(sorted.drop_last(), row, column, k);
        assert(sorted.drop_last().subrange(0, k) =~= sorted.subrange(0, k));
        assert(sorted.drop_last().subrange(k, sorted.len() - 1) =~= sorted.subrange(
            k,
            sorted.len() - 1,
        ));
        assert(insert_row(sorted, row, column) =~= sorted.subrange(0, k) + seq![row]
            + sorted.subrange(k, sorted.len() as int));
    } else {
        assert(k == sorted.len()) by {
            if k < sorted.len() {
                assert(spec_content_cmp(
                    row[column].content,
                    sorted[sorted.len() - 1][column].content,
                ) is Less);
            }
        }
        assert(insert_row(sorted, row, column) =~= sorted.subrange(0, k) + seq![row]
            + sorted.subrange(k, sorted.len() as int));
    }
}

/// Joining rows of one width gives one cell per slot, all well formed.
proof fn lemma_flat_shape(rows: Seq<Seq<Cell>>, width: int)
    requires
        rows_width(rows, width),
        rows_wf(rows),
        width >= 0,
    ensures
        flat_rows(rows).len() == rows.len() * width,
        forall|i: int| 0 <= i < flat_rows(rows).len() ==> (#[trigger] flat_rows(rows)[i]).wf(),
    decreases rows.len(),
{
    if rows.len() == 0 {
        assert(rows.len() * width == 0) by (nonlinear_arith)
            requires
                rows.len() == 0,
        ;
    } else {
        let front = rows.drop_last();
        assert(rows_width(front, width) && rows_wf(front)) by {
            assert(forall|y: int| 0 <= y < front.len() ==> #[trigger] front[y] == rows[y]);
        }
        lemma_flat_shape(front, width);
        assert(rows.len() * width == (rows.len() - 1) * width + width) by (nonlinear_arith);
        assert forall|i: int|
            0 <= i < flat_rows(rows).len() implies (#[trigger] flat_rows(rows)[i]).wf() by {
            if i < flat_rows(front).len() {
                assert(flat_rows(rows)[i] == flat_rows(front)[i]);
            } else {
                assert(flat_rows(rows)[i] == rows.last()[i - flat_rows(front).len()]);
                assert(rows.last()[i - flat_rows(front).len()].wf());
            }
        }
    }
}

/// The slot in ordered rows where a new row lands: scanning backward past
/// every row whose key compares greater.
fn insertion_point(sorted: &Vec<Vec<Cell>>, next: &Vec<Cell>, column: usize) -> (k: usize)
    requires
        column < next@.len(),
        next@[column as int].wf(),
        forall|y: int| 0 <= y < sorted@.len() ==> column < (#[trigger] sorted@[y])@.len(),
        forall|y: int|
            0 <= y < sorted@.len() ==> ((#[trigger] sorted@[y])@)[column as int].wf(),
    ensures
        k <= sorted@.len(),
        forall|j: int|
            k <= j < sorted@.len() ==> spec_content_cmp(
                next@[column as int].content,
                ((#[trigger] sorted@[j])@)[column as int].content,
            ) is Less,
        k > 0 ==> !(spec_content_cmp(
            next@[column as int].content,
            (sorted@[k - 1]@)[column as int].content,
        ) is Less),
{
    let mut k = sorted.len();
    while k > 0
        invariant
            k <= sorted@.len(),
            column < next@.len(),
            next@[column as int].wf(),
            forall|y: int| 0 <= y < sorted@.len() ==> column < (#[trigger] sorted@[y])@.len(),
            forall|y: int|
                0 <= y < sorted@.len() ==> ((#[trigger] sorted@[y])@)[column as int].wf(),
            forall|j: int|
                k <= j < sorted@.len() ==> spec_content_cmp(
                    next@[column as int].content,
                    ((#[trigger] sorted@[j])@)[column as int].content,
                ) is Less,
        decreases k,
    {
        let prev = &sorted[k - 1];
        let c = content_cmp(&next[column].content, &prev[column].content);
        if !matches!(c, Ordering::Less) {
            return k;
        }
        k -= 1;
    }
    0
}

impl Spreadsheet {
    /// Sorts the grid by one column's contents: the pinned rows stay put,
    /// the rest are stably ordered by the comparison rule and then the
    /// ordered rows are reversed, and every cell is re-stamped with its new
    /// address.
    pub fn sort_column(&mut self, column: usize)
        requires
            old(self).wf(),
            column < old(self).spec_width(),
            old(self).spec_fixed_rows() <= old(self).spec_height(),
        ensures
            final (self).wf(),
            ({
                let rows = rows_of(
                    old(self).spec_cells(),
                    old(self).spec_width(),
                    old(self).spec_height(),
                );
                let head = rows.subrange(0, old(self).spec_fixed_rows());
                let tail = rows.subrange(old(self).spec_fixed_rows(), old(self).spec_height());
                final (self).spec_cells() == renumber(
                    flat_rows(head + rev_rows(sort_rows(tail, column as int))),
                    old(self).spec_width(),
                )
            }),
            final (self).spec_cursor() == old(self).spec_cursor(),
            final (self).spec_width() == old(self).spec_width(),
            final (self).spec_height() == old(self).spec_height(),
            final (self).spec_column_widths() == old(self).spec_column_widths(),
            final (self).spec_used() == old(self).spec_used(),
            final (self).spec_fixed_rows() == old(self).spec_fixed_rows(),
    {
        let width = self.width;
        let height = self.height;
        let fixed = self.fixed_rows;
        let ghost old_cells = self.cells@;
        let ghost all_rows = rows_of(old_cells, width as int, height as int);
        let ghost head = all_rows.subrange(0, fixed as int);
        let ghost tail = all_rows.subrange(fixed as int, height as int);
        let mut taken: Vec<Cell> = Vec::new();
        core::mem::swap(&mut taken, &mut self.cells);
        let mut rows: Vec<Vec<Cell>> = Vec::new();
        let mut y: usize = 0;
        proof {
            assert(0 * width as int == 0) by (nonlinear_arith);
            assert(taken@ =~= old_cells.subrange(0, (width * height) as int));
        }
        while y < height
            invariant
                y <= height,
                width == old(self).width,
                height == old(self).height,
                old_cells == old(self).spec_cells(),
                old_cells.len() == width * height,
                all_rows == rows_of(old_cells, width as int, height as int),
                forall|i: int| 0 <= i < old_cells.len() ==> (#[trigger] old_cells[i]).wf(),
                taken@ == old_cells.subrange(y * width as int, (width * height) as int),
                rows@.len() == y,
                forall|yy: int| 0 <= yy < y ==> (#[trigger] rows@[yy])@ == all_rows[yy],
            decreases height - y,
        {
            let mut row: Vec<Cell> = Vec::new();
            let mut x: usize = 0;
            proof {
                assert(y * width as int + width <= width * height) by (nonlinear_arith)
                    requires
                        y < height,
                        0 <= width,
                ;
            }
            while x < width
                invariant
                    x <= width,
                    y < height,
                    old_cells.len() == width * height,
                    y * width as int + width <= width * height,
                    taken@ == old_cells.subrange(y * width as int + x, (width * height) as int),
                    row@.len() == x,
                    forall|xx: int|
                        0 <= xx < x ==> #[trigger] row@[xx] == old_cells[y * width as int + xx],
                decreases width - x,
            {
                let moved = taken.remove(0);
                proof {
                    assert(moved == old_cells[y * width as int + x]);
                    assert(taken@ =~= old_cells.subrange(
                        y * width as int + x + 1,
                        (width * height) as int,
                    ));
                }
                row.push(moved);
                x += 1;
            }
            proof {
                assert(row@ =~= all_rows[y as int]);
                assert((y + 1) * width as int == y * width as int + width) by (nonlinear_arith);
            }
            rows.push(row);
            y += 1;
        }
        proof {
            assert forall|yy: int, x: int|
                0 <= yy < all_rows.len() && 0 <= x < all_rows[yy].len() implies #[trigger] all_rows[
            yy][x].wf() by {
                assert(all_rows[yy][x] == old_cells[yy * width as int + x]);
                assert(0 <= yy * width as int + x < old_cells.len()) by (nonlinear_arith)
                    requires
                        0 <= x < width,
                        0 <= yy < height,
                        old_cells.len() == width * height,
                ;
            }
        }
        let mut head_rows: Vec<Vec<Cell>> = Vec::new();
        let mut t: usize = 0;
        while t < fixed
            invariant
                t <= fixed,
                fixed <= height,
                all_rows.len() == height,
                rows@.len() == height - t,
                forall|yy: int|
                    0 <= yy < rows@.len() ==> (#[trigger] rows@[yy])@ == all_rows[t + yy],
                head_rows@.len() == t,
                forall|yy: int| 0 <= yy < t ==> (#[trigger] head_rows@[yy])@ == all_rows[yy],
            decreases fixed - t,
        {
            let first = rows.remove(0);
            head_rows.push(first);
            t += 1;
        }
        let remaining = rows.len();
        let mut sorted: Vec<Vec<Cell>> = Vec::new();
        let mut u: usize = 0;
        proof {
            assert(sort_rows(tail.subrange(0, 0), column as int) =~= Seq::<Seq<Cell>>::empty());
            assert(views_of(sorted@) =~= Seq::<Seq<Cell>>::empty());
        }
        while u < remaining
            invariant
                u <= remaining,
                remaining == height - fixed,
                fixed <= height,
                column < width,
                all_rows.len() == height,
                rows_wf(all_rows),
                rows_width(all_rows, width as int),
                tail == all_rows.subrange(fixed as int, height as int),
                rows@.len() == remaining - u,
                forall|yy: int|
                    0 <= yy < rows@.len() ==> (#[trigger] rows@[yy])@ == all_rows[fixed + u + yy],
                views_of(sorted@) == sort_rows(tail.subrange(0, u as int), column as int),
                sorted@.len() == u,
                forall|yy: int|
                    0 <= yy < sorted@.len() ==> (#[trigger] sorted@[yy])@.len() == width,
                rows_wf(views_of(sorted@)),
            decreases remaining - u,
        {
            let next = rows.remove(0);
            let ghost next_view = next@;
            proof {
                assert(next_view == all_rows[fixed + u]);
                assert(next_view[column as int].wf());
                assert forall|yv: int|
                    0 <= yv < sorted@.len() implies ((#[trigger] sorted@[yv])@)[
                column as int].wf() by {
                    assert(views_of(sorted@)[yv] == sorted@[yv]@);
                }
            }
            let k = insertion_point(&sorted, &next, column);
            let ghost pre_sorted = views_of(sorted@);
            sorted.insert(k, next);
            u += 1;
            proof {
                assert(views_of(sorted@) =~= pre_sorted.subrange(0, k as int) + seq![next_view]
                    + pre_sorted.subrange(k as int, pre_sorted.len() as int));
                lemma_insert_row_at(pre_sorted, next_view, column as int, k as int);
                assert(tail.subrange(0, u as int).drop_last() =~= tail.subrange(0, u - 1));
                assert(tail.subrange(0, u as int).last() == all_rows[fixed + u - 1]);
                assert(views_of(sorted@) == sort_rows(tail.subrange(0, u as int), column as int));
                assert forall|yy: int, x: int|
                    0 <= yy < views_of(sorted@).len() && 0 <= x < views_of(sorted@)[yy].len()
                    implies (#[trigger] views_of(sorted@)[yy][x]).wf() by {
                    if yy < k {
                        assert(views_of(sorted@)[yy] == pre_sorted[yy]);
                        assert(pre_sorted[yy][x].wf());
                    } else if yy == k {
                        assert(views_of(sorted@)[yy] == next_view);
                        assert(all_rows[fixed + u - 1][x].wf());
                    } else {
                        assert(views_of(sorted@)[yy] == pre_sorted[yy - 1]);
                        assert(pre_sorted[yy - 1][x].wf());
                    }
                }
            }
        }
        proof {
            assert(tail.subrange(0, remaining as int) =~= tail);
        }
        let mut reversed: Vec<Vec<Cell>> = Vec::new();
        let ghost sorted_full = views_of(sorted@);
        proof {
            assert(views_of(reversed@) + rev_rows(views_of(sorted@)) =~= rev_rows(sorted_full));
        }
        while sorted.len() > 0
            invariant
                views_of(reversed@) + rev_rows(views_of(sorted@)) == rev_rows(sorted_full),
                reversed@.len() + sorted@.len() == sorted_full.len(),
                forall|yy: int|
                    0 <= yy < sorted@.len() ==> (#[trigger] sorted@[yy])@.len() == width,
                forall|yy: int|
                    0 <= yy < reversed@.len() ==> (#[trigger] reversed@[yy])@.len() == width,
                rows_wf(views_of(sorted@)),
                rows_wf(views_of(reversed@)),
                column < width,
            decreases sorted@.len(),
        {
            let ghost pre_rev = views_of(reversed@);
            let ghost pre_srt = views_of(sorted@);
            let last = match sorted.pop() {
                Some(v) => v,
                None => {
                    proof {
                        assert(false);
                    }
                    Vec::new()
                },
            };
            reversed.push(last);
            proof {
                assert(views_of(sorted@) =~= pre_srt.drop_last());
                assert(views_of(reversed@) =~= pre_rev.push(pre_srt.last()));
                assert(views_of(reversed@) + rev_rows(views_of(sorted@)) =~= rev_rows(
                    sorted_full,
                ));
                assert forall|yy: int, x: int|
                    0 <= yy < views_of(reversed@).len() && 0 <= x < views_of(reversed@)[yy].len()
                    implies (#[trigger] views_of(reversed@)[yy][x]).wf() by {
                    if yy < pre_rev.len() {
                        assert(views_of(reversed@)[yy] == pre_rev[yy]);
                        assert(pre_rev[yy][x].wf());
                    } else {
                        assert(views_of(reversed@)[yy] == pre_srt.last());
                        assert(pre_srt[pre_srt.len() - 1][x].wf());
                    }
                }
            }
        }
        let ghost rev_full = views_of(reversed@);
        proof {
            assert(rev_rows(views_of(sorted@)) =~= Seq::<Seq<Cell>>::empty());
            assert(rev_full =~= rev_rows(sorted_full));
            assert(rows_wf(rev_full));
            assert(rows_width(rev_full, width as int)) by {
                assert(forall|yy: int|
                    0 <= yy < rev_full.len() ==> (#[trigger] rev_full[yy]).len() == width);
            }
        }
        // Join the pinned rows and the reversed ordered rows back into one
        // row-major list, then stamp each cell with its new address.
        let ghost target = head + rev_full;
        let mut new_cells: Vec<Cell> = Vec::new();
        let mut j: usize = 0;
        let head_count = head_rows.len();
        proof {
            assert(flat_rows(target.subrange(0, 0)) =~= Seq::<Cell>::empty());
            assert(new_cells@ =~= flat_rows(target.subrange(0, 0)));
        }
        while j < head_count
            invariant
                j <= head_count,
                head_count == fixed,
                fixed <= height,
                all_rows.len() == height,
                target == head + rev_full,
                rev_full == rev_rows(sort_rows(tail, column as int)),
                head == all_rows.subrange(0, fixed as int),
                head_rows@.len() == head_count - j,
                forall|yy: int|
                    0 <= yy < head_rows@.len() ==> (#[trigger] head_rows@[yy])@ == all_rows[j
                        + yy],
                new_cells@ == flat_rows(target.subrange(0, j as int)),
            decreases head_count - j,
        {
            let mut first = head_rows.remove(0);
            proof {
                assert(first@ == all_rows[j as int]);
                assert(target[j as int] == head[j as int]);
            }
            new_cells.append(&mut first);
            j += 1;
            proof {
                assert(target.subrange(0, j as int).drop_last() =~= target.subrange(0, j - 1));
                assert(target.subrange(0, j as int).last() == target[j - 1]);
                assert(new_cells@ =~= flat_rows(target.subrange(0, j as int)));
            }
        }
        let rev_count = reversed.len();
        let mut q: usize = 0;
        proof {
            assert(rev_full.subrange(0, rev_count as int) =~= rev_full);
            assert(target.subrange(0, head_count as int) =~= target.subrange(
                0,
                head_count + 0,
            ));
        }
        while q < rev_count
            invariant
                q <= rev_count,
                head_count == fixed,
                target == head + rev_full,
                rev_full.len() == rev_count,
                target.len() == head_count + rev_count,
                views_of(reversed@) == rev_full.subrange(q as int, rev_count as int),
                new_cells@ == flat_rows(target.subrange(0, head_count + q)),
            decreases rev_count - q,
        {
            let ghost pre = reversed@;
            proof {
                assert(views_of(pre).len() == pre.len());
            }
            let mut first = reversed.remove(0);
            proof {
                assert(first == pre[0]);
                assert(views_of(pre)[0] == pre[0]@);
                assert(first@ == rev_full[q as int]);
                assert(target[head_count + q] == rev_full[q as int]);
                assert(views_of(reversed@) =~= rev_full.subrange(q + 1, rev_count as int)) by {
                    assert forall|k2: int|
                        0 <= k2 < reversed@.len() implies #[trigger] views_of(reversed@)[k2]
                        == rev_full[q + 1 + k2] by {
                        assert(views_of(reversed@)[k2] == reversed@[k2]@);
                        assert(reversed@[k2] == pre[k2 + 1]);
                        assert(views_of(pre)[k2 + 1] == pre[k2 + 1]@);
                    }
                }
            }
            new_cells.append(&mut first);
            q += 1;
            proof {
                assert(target.subrange(0, head_count + q).drop_last() =~= target.subrange(
                    0,
                    head_count + q - 1,
                ));
                assert(target.subrange(0, head_count + q).last() == target[head_count + q - 1]);
                assert(new_cells@ =~= flat_rows(target.subrange(0, head_count + q)));
            }
        }
        proof {
            assert(target.subrange(0, head_count + rev_count) =~= target);
            assert forall|yy: int|
                0 <= yy < target.len() implies (#[trigger] target[yy]).len() == width by {
                if yy < head.len() {
                    assert(target[yy] == all_rows[yy]);
                } else {
                    assert(target[yy] == rev_full[yy - head.len()]);
                    assert(rev_full[yy - head.len()].len() == width);
                }
            }
            assert forall|yy: int, x: int|
                0 <= yy < target.len() && 0 <= x < target[yy].len() implies (#[trigger] target[
                yy][x]).wf() by {
                if yy < head.len() {
                    assert(target[yy] == all_rows[yy]);
                    assert(all_rows[yy][x].wf());
                } else {
                    assert(target[yy] == rev_full[yy - head.len()]);
                    assert(rev_full[yy - head.len()][x].wf());
                }
            }
            lemma_flat_shape(target, width as int);
            assert(target.len() == height);
            assert(target.len() * width == width * height) by (nonlinear_arith)
                requires
                    target.len() == height,
            ;
            assert(flat_rows(target).len() == width * height);
        }
        let total = new_cells.len();
        let mut i: usize = 0;
        let ghost flat = flat_rows(target);
        proof {
            assert(new_cells@ == flat);
        }
        while i < total
            invariant
                i <= total,
                width > 0,
                total == flat.len(),
                total == width * height,
                new_cells@.len() == total,
                forall|p: int| i <= p < total ==> #[trigger] new_cells@[p] == flat[p],
                forall|p: int|
                    0 <= p < i ==> #[trigger] new_cells@[p] == (Cell {
                        content: flat[p].content,
                        position: spec_pos_at(p, width as int),
                        unit: flat[p].unit,
                    }),
            decreases total - i,
        {
            let pos = CellPosition::from_index(i, width);
            let cell = &mut new_cells[i];
            cell.position = pos;
            i += 1;
        }
        self.cells = new_cells;
        proof {
            assert(rev_full == rev_rows(sort_rows(tail, column as int)));
            assert(self.cells@ =~= renumber(flat, width as int));
            assert(final (self).wf()) by {
                assert forall|p: int|
                    0 <= p < self.cells@.len() implies (#[trigger] self.cells@[p]).position
                    == spec_pos_at(p, self.width as int) && self.cells@[p].wf() by {
                    assert(flat[p].wf());
                }
            }
        }
    }
}

/// A cell that takes part in an evaluation pass: a formula with a nonempty
/// expression.
pub open spec fn is_eval_cell(c: Cell) -> bool {
    c.content matches CellContent::Formula(f) && f.parsed@.len() > 0
}

/// How many cells before index `i` take part in an evaluation pass; it is
/// the rank of the request prepared for the cell at `i`.
pub open spec fn spec_eval_count(cells: Seq<Cell>, i: int) -> int
    decreases i,
{
    if i <= 0 {
        0
    } else {
        spec_eval_count(cells, i - 1) + if is_eval_cell(cells[i - 1]) {
            1int
        } else {
            0int
        }
    }
}

/// The lowercase form of text, character by character.
pub open spec fn spec_lower(s: Seq<char>) -> Seq<char> {
    s.map_values(|c: char| crate::text::to_lower(c))
}

/// The name bindings handed to the evaluator for the formula at `me`,
/// collected from the cells from index `i` on: every other cell's scalar,
/// under its cell name and the name's lowercase form.
pub open spec fn spec_bindings(cells: Seq<Cell>, me: CellPosition, i: int) -> Seq<
    (Seq<char>, Value),
>
    decreases cells.len() - i,
{
    if i < 0 || i >= cells.len() {
        Seq::empty()
    } else {
        let rest = spec_bindings(cells, me, i + 1);
        let c = cells[i];
        if c.position == me {
            rest
        } else {
            match spec_scalar_value(c.content) {
                Option::None => rest,
                Option::Some(v) => {
                    let name = crate::address::spec_cell_name(
                        c.position.0 as nat,
                        c.position.1 as nat,
                    );
                    seq![(name, v), (spec_lower(name), v)] + rest
                },
            }
        }
    }
}

/// The scalar values of one column handed to the evaluator for the formula
/// at `me`, collected from the cells from index `i` on, in row-major order:
/// every other cell of that column with a scalar.
pub open spec fn spec_col_values(cells: Seq<Cell>, me: CellPosition, col: int, i: int) -> Seq<
    Value,
>
    decreases cells.len() - i,
{
    if i < 0 || i >= cells.len() {
        Seq::empty()
    } else {
        let rest = spec_col_values(cells, me, col, i + 1);
        let c = cells[i];
        if c.position.0 == col && c.position != me && spec_scalar_value(c.content) is Some {
            seq![spec_scalar_value(c.content)->Some_0] + rest
        } else {
            rest
        }
    }
}

/// The pairs of a binding list as views.
pub open spec fn binding_views(v: Seq<(String, Value)>) -> Seq<(Seq<char>, Value)> {
    v.map_values(|p: (String, Value)| (p.0@, p.1))
}

/// One prepared evaluation: the formula cell's address, its expression, the
/// scalar name bindings, and per column (under its name and the lowercase
/// form) the column's scalar values.
pub struct EvalRequest {
    pub position: CellPosition,
    pub expression: String,
    pub bindings: Vec<(String, Value)>,
    pub columns: Vec<(String, Vec<Value>)>,
}

/// Lowercases text character by character.
fn lower_chars(v: &Vec<char>) -> (r: Vec<char>)
    ensures
        r@ == spec_lower(v@),
{
    let mut r: Vec<char> = Vec::new();
    let mut i: usize = 0;
    while i < v.len()
        invariant
            i <= v@.len(),
            r@.len() == i,
            forall|j: int| 0 <= j < i ==> #[trigger] r@[j] == crate::text::to_lower(v@[j]),
        decreases v@.len() - i,
    {
        r.push(crate::text::char_to_lower(v[i]));
        i += 1;
    }
    proof {
        assert(r@ =~= spec_lower(v@));
    }
    r
}

impl Spreadsheet {
    /// The name bindings for the formula at `me`: every other cell's
    /// scalar under its uppercase and lowercase cell names.
    fn bindings_for(&self, me: CellPosition) -> (r: Vec<(String, Value)>)
        requires
            self.wf(),
        ensures
            binding_views(r@) == spec_bindings(self.spec_cells(), me, 0),
            forall|j: int| 0 <= j < r@.len() ==> (#[trigger] r@[j]).1.wf(),
    {
        let mut out: Vec<(String, Value)> = Vec::new();
        let mut i: usize = 0;
        proof {
            assert(binding_views(out@) + spec_bindings(self.spec_cells(), me, 0) =~= spec_bindings(
                self.spec_cells(),
                me,
                0,
            ));
        }
        while i < self.cells.len()
            invariant
                i <= self.spec_cells().len(),
                self.wf(),
                spec_bindings(self.spec_cells(), me, 0) == binding_views(out@) + spec_bindings(
                    self.spec_cells(),
                    me,
                    i as int,
                ),
                forall|j: int| 0 <= j < out@.len() ==> (#[trigger] out@[j]).1.wf(),
            decreases self.spec_cells().len() - i,
        {
            let cell = &self.cells[i];
            if !(cell.position.0 == me.0 && cell.position.1 == me.1) {
                match cell.content.scalar_value() {
                    Option::Some(v) => {
                        let ghost pre = out@;
                        let name = cell.position.name();
                        let name_chars = str_to_chars(name.as_str());
                        let lower = chars_to_string(lower_chars(&name_chars).as_slice());
                        let v2 = v.duplicate();
                        out.push((name, v));
                        out.push((lower, v2));
                        proof {
                            assert(cell.content.wf());
                            assert(spec_scalar_value(cell.content)->Some_0.wf());
                            assert(binding_views(out@) =~= binding_views(pre) + seq![
                                (
                                    crate::address::spec_cell_name(
                                        cell.position.0 as nat,
                                        cell.position.1 as nat,
                                    ),
                                    spec_scalar_value(cell.content)->Some_0,
                                ),
                                (
                                    spec_lower(
                                        crate::address::spec_cell_name(
                                            cell.position.0 as nat,
                                            cell.position.1 as nat,
                                        ),
                                    ),
                                    spec_scalar_value(cell.content)->Some_0,
                                ),
                            ]);
                        }
                    },
                    Option::None => {
                    },
                }
            }
            proof {
                assert(cell.position == me <==> (cell.position.0 == me.0 && cell.position.1
                    == me.1));
            }
            i += 1;
        }
        proof {
            assert(spec_bindings(self.spec_cells(), me, self.spec_cells().len() as int)
                =~= Seq::<(Seq<char>, Value)>::empty());
            assert(binding_views(out@) + spec_bindings(
                self.spec_cells(),
                me,
                self.spec_cells().len() as int,
            ) =~= binding_views(out@));
        }
        out
    }

    /// One column's scalar values for the formula at `me`, in row order.
    fn column_values_for(&self, me: CellPosition, col: usize) -> (r: Vec<Value>)
        requires
            self.wf(),
        ensures
            r@ == spec_col_values(self.spec_cells(), me, col as int, 0),
            forall|j: int| 0 <= j < r@.len() ==> (#[trigger] r@[j]).wf(),
    {
        let mut out: Vec<Value> = Vec::new();
        let mut i: usize = 0;
        proof {
            assert(out@ + spec_col_values(self.spec_cells(), me, col as int, 0) =~= spec_col_values(
                self.spec_cells(),
                me,
                col as int,
                0,
            ));
        }
        while i < self.cells.len()
            invariant
                i <= self.spec_cells().len(),
                self.wf(),
                spec_col_values(self.spec_cells(), me, col as int, 0) == out@ + spec_col_values(
                    self.spec_cells(),
                    me,
                    col as int,
                    i as int,
                ),
                forall|j: int| 0 <= j < out@.len() ==> (#[trigger] out@[j]).wf(),
            decreases self.spec_cells().len() - i,
        {
            let cell = &self.cells[i];
            if cell.position.0 == col && !(cell.position.0 == me.0 && cell.position.1 == me.1) {
                match cell.content.scalar_value() {
                    Option::Some(v) => {
                        let ghost pre = out@;
                        out.push(v);
                        proof {
                            assert(out@ =~= pre + seq![
                                spec_scalar_value(cell.content)->Some_0,
                            ]);
                        }
                    },
                    Option::None => {
                    },
                }
            }
            proof {
                assert(cell.position == me <==> (cell.position.0 == me.0 && cell.position.1
                    == me.1));
            }
            i += 1;
        }
        proof {
            assert(spec_col_values(
                self.spec_cells(),
                me,
                col as int,
                self.spec_cells().len() as int,
            ) =~= Seq::<Value>::empty());
            assert(out@ + Seq::<Value>::empty() =~= out@);
        }
        out
    }

    /// Prepares one evaluation pass: one request per formula cell with a
    /// nonempty expression, in row-major order, each carrying the cell's
    /// address, its expression, the scalar bindings of every other cell
    /// under uppercase and lowercase names, and per column (under both
    /// cases of its name) the column's scalar values. All requests read the
    /// same snapshot: the grid itself is untouched.
    pub fn prepare_evaluation(&self) -> (r: Vec<EvalRequest>)
        requires
            self.wf(),
        ensures
            r@.len() == spec_eval_count(self.spec_cells(), self.spec_cells().len() as int),
            forall|i: int|
                0 <= i < self.spec_cells().len() && is_eval_cell(#[trigger] self.spec_cells()[i])
                    ==> spec_request_matches(
                    *self,
                    self.spec_cells()[i],
                    r@[spec_eval_count(self.spec_cells(), i)],
                ),
    {
        let mut out: Vec<EvalRequest> = Vec::new();
        let mut i: usize = 0;
        while i < self.cells.len()
            invariant
                i <= self.spec_cells().len(),
                self.wf(),
                out@.len() == spec_eval_count(self.spec_cells(), i as int),
                forall|j: int|
                    0 <= j < i && is_eval_cell(#[trigger] self.spec_cells()[j])
                        ==> spec_request_matches(
                        *self,
                        self.spec_cells()[j],
                        out@[spec_eval_count(self.spec_cells(), j)],
                    ),
            decreases self.spec_cells().len() - i,
        {
            let ghost out_pre = out@;
            let cell = &self.cells[i];
            let is_formula_cell = match &cell.content {
                CellContent::Formula(f) => !f.parsed.as_str().is_empty(),
                _ => false,
            };
            if is_formula_cell {
                let me = cell.position;
                let expression = match &cell.content {
                    CellContent::Formula(f) => f.parsed.clone(),
                    _ => String::new(),
                };
                let bindings = self.bindings_for(me);
                let mut columns: Vec<(String, Vec<Value>)> = Vec::new();
                let mut c: usize = 0;
                while c < self.width
                    invariant
                        c <= self.spec_width(),
                        self.wf(),
                        columns@.len() == 2 * c,
                        forall|cc: int|
                            0 <= cc < c ==> spec_column_entry_matches(
                                *self,
                                me,
                                cc,
                                (#[trigger] columns@[2 * cc]),
                                columns@[2 * cc + 1],
                            ),
                    decreases self.spec_width() - c,
                {
                    let name_chars = crate::address::column_name_chars(c);
                    let upper = chars_to_string(name_chars.as_slice());
                    let lower = chars_to_string(lower_chars(&name_chars).as_slice());
                    let values = self.column_values_for(me, c);
                    let mut values2: Vec<Value> = Vec::new();
                    let mut k: usize = 0;
                    while k < values.len()
                        invariant
                            k <= values@.len(),
                            forall|j: int| 0 <= j < values@.len() ==> (#[trigger] values@[j]).wf(),
                            values2@ == values@.subrange(0, k as int),
                        decreases values@.len() - k,
                    {
                        values2.push(values[k].duplicate());
                        proof {
                            assert(values2@ =~= values@.subrange(0, k + 1));
                        }
                        k += 1;
                    }
                    proof {
                        assert(values2@ =~= values@);
                    }
                    columns.push((upper, values));
                    columns.push((lower, values2));
                    c += 1;
                }
                out.push(
                    EvalRequest { position: me, expression, bindings, columns },
                );
            }
            i += 1;
            proof {
                assert(spec_eval_count(self.spec_cells(), i as int) == spec_eval_count(
                    self.spec_cells(),
                    i - 1,
                ) + if is_eval_cell(self.spec_cells()[i - 1]) {
                    1int
                } else {
                    0int
                });
                assert(is_eval_cell(self.spec_cells()[i - 1]) == is_formula_cell);
                assert(out_pre.len() == spec_eval_count(self.spec_cells(), i - 1));
                assert(forall|q2: int| 0 <= q2 < out_pre.len() ==> out@[q2] == #[trigger] out_pre[q2]);
                if is_formula_cell {
                    let req = out@[out@.len() - 1];
                    let target_cell = self.spec_cells()[i - 1];
                    assert(req.position == target_cell.position);
                    assert(target_cell.content matches CellContent::Formula(fx) && req.expression
                        == fx.parsed);
                    assert(binding_views(req.bindings@) == spec_bindings(
                        self.spec_cells(),
                        target_cell.position,
                        0,
                    ));
                    assert(req.columns@.len() == 2 * self.spec_width());
                    assert(forall|cc: int|
                        0 <= cc < self.spec_width() ==> spec_column_entry_matches(
                            *self,
                            target_cell.position,
                            cc,
                            (#[trigger] req.columns@[2 * cc]),
                            req.columns@[2 * cc + 1],
                        ));
                    assert(out@.len() - 1 == spec_eval_count(self.spec_cells(), i - 1));
                    assert(spec_request_matches(
                        *self,
                        self.spec_cells()[i - 1],
                        out@[out@.len() - 1],
                    ));
                }
                assert forall|j: int|
                    0 <= j < i && is_eval_cell(#[trigger] self.spec_cells()[j])
                    implies spec_request_matches(
                    *self,
                    self.spec_cells()[j],
                    out@[spec_eval_count(self.spec_cells(), j)],
                ) by {
                    if j < i - 1 {
                        lemma_eval_count_mono(self.spec_cells(), j, i - 1);
                        lemma_eval_count_mono(self.spec_cells(), j + 1, i - 1);
                        assert(spec_eval_count(self.spec_cells(), j) < out_pre.len());
                        assert(out@[spec_eval_count(self.spec_cells(), j)] == out_pre[
                            spec_eval_count(self.spec_cells(), j)]);
                        assert(spec_request_matches(
                            *self,
                            self.spec_cells()[j],
                            out_pre[spec_eval_count(self.spec_cells(), j)],
                        ));
                    }
                }
            }
        }
        out
    }

    /// Applies the results of one evaluation pass, in the order the
    /// requests were prepared: each participating formula takes its result
    /// as its new value; a formula with an empty expression takes the empty
    /// value; everything else is untouched.
    pub fn apply_evaluation(&mut self, results: &Vec<Value>)
        requires
            old(self).wf(),
            results@.len() == spec_eval_count(
                old(self).spec_cells(),
                old(self).spec_cells().len() as int,
            ),
            forall|j: int| 0 <= j < results@.len() ==> (#[trigger] results@[j]).wf(),
        ensures
            final (self).wf(),
            final (self).spec_cells().len() == old(self).spec_cells().len(),
            forall|i: int|
                0 <= i < old(self).spec_cells().len() ==> spec_applied(
                    old(self).spec_cells(),
                    results@,
                    #[trigger] final (self).spec_cells()[i],
                    i,
                ),
            final (self).spec_cursor() == old(self).spec_cursor(),
            final (self).spec_width() == old(self).spec_width(),
            final (self).spec_height() == old(self).spec_height(),
            final (self).spec_column_widths() == old(self).spec_column_widths(),
            final (self).spec_used() == old(self).spec_used(),
            final (self).spec_fixed_rows() == old(self).spec_fixed_rows(),
    {
        let n = self.cells.len();
        let result_count = results.len();
        let mut i: usize = 0;
        let mut rank: usize = 0;
        while i < n
            invariant
                i <= n,
                n == old(self).spec_cells().len(),
                self.cells@.len() == n,
                results@.len() == spec_eval_count(old(self).spec_cells(), n as int),
                forall|j: int| 0 <= j < results@.len() ==> (#[trigger] results@[j]).wf(),
                rank == spec_eval_count(old(self).spec_cells(), i as int),
                rank <= results@.len(),
                result_count == results@.len(),
                forall|j: int| i <= j < n ==> #[trigger] self.cells@[j] == old(self).spec_cells()[j],
                forall|j: int|
                    0 <= j < i ==> spec_applied(
                        old(self).spec_cells(),
                        results@,
                        #[trigger] self.cells@[j],
                        j,
                    ),
                self.width == old(self).width,
                self.height == old(self).height,
                self.current_cell == old(self).current_cell,
                self.used_cells == old(self).used_cells,
                self.fixed_rows == old(self).fixed_rows,
                self.path == old(self).path,
                self.column_widths@ == old(self).column_widths@,
            decreases n - i,
        {
            proof {
                lemma_eval_count_mono(old(self).spec_cells(), i as int, n as int);
            }
            let is_eval = match &self.cells[i].content {
                CellContent::Formula(f) => !f.parsed.as_str().is_empty(),
                _ => false,
            };
            let is_formula = matches!(self.cells[i].content, CellContent::Formula(_));
            proof {
                assert(self.cells@[i as int] == old(self).spec_cells()[i as int]);
                assert(is_eval == is_eval_cell(old(self).spec_cells()[i as int]));
                if is_eval {
                    assert(rank < results@.len());
                }
            }
            if is_formula {
                let new_value = if is_eval {
                    let v = results[rank].duplicate();
                    rank += 1;
                    v
                } else {
                    Value::Empty
                };
                let cell = &mut self.cells[i];
                match &mut cell.content {
                    CellContent::Formula(f) => {
                        f.value = new_value;
                    },
                    _ => {
                        proof {
                            assert(false);
                        }
                    },
                }
            }
            i += 1;
            proof {
                assert(spec_eval_count(old(self).spec_cells(), i as int) == spec_eval_count(
                    old(self).spec_cells(),
                    i - 1,
                ) + if is_eval_cell(old(self).spec_cells()[i - 1]) {
                    1int
                } else {
                    0int
                });
                assert forall|j: int|
                    0 <= j < i implies spec_applied(
                    old(self).spec_cells(),
                    results@,
                    #[trigger] self.cells@[j],
                    j,
                ) by {
                    if j < i - 1 {
                        assert(self.cells@[j] == old(self).cells@[j]
                            || spec_applied(old(self).spec_cells(), results@, self.cells@[j], j));
                    }
                }
            }
        }
        proof {
            assert(final (self).wf()) by {
                assert forall|p: int|
                    0 <= p < self.cells@.len() implies (#[trigger] self.cells@[p]).position
                    == spec_pos_at(p, self.width as int) && self.cells@[p].wf() by {
                    assert(spec_applied(old(self).spec_cells(), results@, self.cells@[p], p));
                }
            }
        }
    }
}

/// How one evaluation result lands in a cell: a participating formula takes
/// the result at its rank, a formula with an empty expression takes the
/// empty value, and any other cell is untouched.
pub open spec fn spec_applied(
    old_cells: Seq<Cell>,
    results: Seq<Value>,
    new_cell: Cell,
    i: int,
) -> bool {
    let old_cell = old_cells[i];
    match old_cell.content {
        CellContent::Formula(f) => {
            &&& new_cell.position == old_cell.position
            &&& new_cell.unit == old_cell.unit
            &&& new_cell.content matches CellContent::Formula(g)
            &&& g.position == f.position
            &&& g.raw == f.raw
            &&& g.parsed == f.parsed
            &&& g.references@ == f.references@
            &&& g.value == if f.parsed@.len() == 0 {
                Value::Empty
            } else {
                results[spec_eval_count(old_cells, i)]
            }
            &&& g.value.wf()
        },
        _ => new_cell == old_cells[i],
    }
}

/// The rank never exceeds the number of participating cells.
proof fn lemma_eval_count_mono(cells: Seq<Cell>, i: int, n: int)
    requires
        0 <= i <= n,
    ensures
        0 <= spec_eval_count(cells, i) <= spec_eval_count(cells, n),
        is_eval_cell(cells[i]) && i < n ==> spec_eval_count(cells, i) < spec_eval_count(cells, n),
    decreases n - i,
{
    lemma_eval_count_nonneg(cells, i);
    if i < n {
        lemma_eval_count_mono(cells, i + 1, n);
    }
}

/// Ranks are never negative.
proof fn lemma_eval_count_nonneg(cells: Seq<Cell>, i: int)
    ensures
        spec_eval_count(cells, i) >= 0,
    decreases i,
{
    if i > 0 {
        lemma_eval_count_nonneg(cells, i - 1);
    }
}

/// Whether a prepared request carries exactly what the evaluator needs for
/// a formula cell: its address, its expression, the bindings of every other
/// cell, and per column (under both cases of its name) the column's values.
pub open spec fn spec_request_matches(s: Spreadsheet, cell: Cell, req: EvalRequest) -> bool {
    &&& req.position == cell.position
    &&& cell.content matches CellContent::Formula(f) && req.expression == f.parsed
    &&& binding_views(req.bindings@) == spec_bindings(s.spec_cells(), cell.position, 0)
    &&& req.columns@.len() == 2 * s.spec_width()
    &&& forall|cc: int|
        0 <= cc < s.spec_width() ==> spec_column_entry_matches(
            s,
            cell.position,
            cc,
            (#[trigger] req.columns@[2 * cc]),
            req.columns@[2 * cc + 1],
        )
}

/// Whether one column's two entries carry the column's name in both cases
/// and its scalar values.
pub open spec fn spec_column_entry_matches(
    s: Spreadsheet,
    me: CellPosition,
    col: int,
    upper: (String, Vec<Value>),
    lower: (String, Vec<Value>),
) -> bool {
    &&& upper.0@ == crate::address::spec_column_name(col as nat)
    &&& lower.0@ == spec_lower(crate::address::spec_column_name(col as nat))
    &&& upper.1@ == spec_col_values(s.spec_cells(), me, col, 0)
    &&& lower.1@ == spec_col_values(s.spec_cells(), me, col, 0)
}

/// The lines of delimited text that hold any non-whitespace character, from
/// line `j` on: the lines the simple comma loader keeps.
pub open spec fn kept_lines(lines: Seq<Seq<char>>, j: int) -> Seq<Seq<char>>
    decreases lines.len() - j,
{
    if j < 0 || j >= lines.len() {
        Seq::empty()
    } else {
        let rest = kept_lines(lines, j + 1);
        if line_has_content(lines[j]) {
            seq![lines[j]] + rest
        } else {
            rest
        }
    }
}

/// Whether a line holds any non-whitespace character.
pub open spec fn line_has_content(line: Seq<char>) -> bool {
    exists|i: int| 0 <= i < line.len() && !crate::text::is_white(line[i])
}

/// Whether no cell content at all satisfies the parse relation for the
/// field at one slot: the field is a formula whose body does not parse.
pub open spec fn field_unparseable(kept: Seq<Seq<char>>, x: int, y: int) -> bool {
    !(exists|c: CellContent| #[trigger] spec_loaded_cell(kept, x, y, c))
}

/// What the simple comma loader puts at one slot: the trimmed field parsed
/// as cell content against an unbounded grid.
pub open spec fn spec_loaded_cell(
    kept: Seq<Seq<char>>,
    x: int,
    y: int,
    content: CellContent,
) -> bool {
    spec_parse_rel(
        crate::text::spec_trim(crate::text::spec_split_char(kept[y], ',')[x]),
        (x as usize, y as usize),
        usize::MAX as nat,
        content,
    )
}

impl Spreadsheet {
    /// Loads comma-separated text the simple way the editor opens plain
    /// files: lines without content are skipped, each kept line is split on
    /// commas, and each field is trimmed and parsed as cell content. Every
    /// kept line must split into equally many fields — the loader builds a
    /// rectangle — and the grid must fit in memory. Fails exactly when some
    /// field is a formula whose body does not parse; formulas are left
    /// unevaluated, for the caller to run evaluation passes over.
    pub fn load_csv(csv: &str) -> (r: Result<Spreadsheet, CellError>)
        requires
            ({
                let kept = kept_lines(crate::csv::spec_lines(csv@), 0);
                &&& forall|j: int|
                    0 <= j < kept.len() ==> crate::text::spec_split_char(
                        #[trigger] kept[j],
                        ',',
                    ).len() == crate::text::spec_split_char(kept[0], ',').len()
                &&& (kept.len() > 0 ==> crate::text::spec_split_char(kept[0], ',').len()
                    * kept.len() <= usize::MAX)
            }),
        ensures
            ({
                let kept = kept_lines(crate::csv::spec_lines(csv@), 0);
                let width: int = if kept.len() == 0 {
                    0
                } else {
                    crate::text::spec_split_char(kept[0], ',').len() as int
                };
                match r {
                    Ok(sheet) => {
                        &&& sheet.wf()
                        &&& sheet.spec_width() == width
                        &&& sheet.spec_height() == kept.len()
                        &&& forall|x: int, y: int|
                            0 <= x < width && 0 <= y < kept.len() ==> spec_loaded_cell(
                                kept,
                                x,
                                y,
                                (#[trigger] sheet.spec_cells()[y * width + x]).content,
                            )
                        &&& forall|i: int|
                            0 <= i < sheet.spec_cells().len() ==> (#[trigger] sheet.spec_cells()[
                            i]).unit == UnitKind::Plain
                        &&& sheet.spec_cursor() == CellPosition(0, 0)
                        &&& sheet.spec_used() == CellPosition(0, 0)
                        &&& sheet.spec_fixed_rows() == 0
                        &&& forall|c: int|
                            0 <= c < width ==> #[trigger] sheet.spec_column_widths()[c] == 10
                    },
                    Err(_) => exists|x: int, y: int|
                        0 <= y < kept.len() && 0 <= x < width && #[trigger] field_unparseable(
                            kept,
                            x,
                            y,
                        ),
                }
            }),
    {
        let chars = str_to_chars(csv);
        let lines = crate::csv::split_text_lines(chars.as_slice());
        let ghost lseq = crate::csv::spec_lines(csv@);
        let ghost kept_all = kept_lines(lseq, 0);
        let mut kept: Vec<Vec<char>> = Vec::new();
        let mut j: usize = 0;
        let m = lines.len();
        proof {
            assert(crate::text::char_vec_views(kept@) + kept_lines(lseq, 0) =~= kept_lines(
                lseq,
                0,
            ));
        }
        while j < m
            invariant
                j <= m,
                m == lseq.len(),
                lseq == crate::csv::spec_lines(csv@),
                crate::csv::vec_views(lines@) == lseq,
                kept_all == kept_lines(lseq, 0),
                kept_lines(lseq, 0) == crate::text::char_vec_views(kept@) + kept_lines(
                    lseq,
                    j as int,
                ),
            decreases m - j,
        {
            assert(lines@[j as int]@ == lseq[j as int]);
            let line = &lines[j];
            let mut has = false;
            let mut k: usize = 0;
            while k < line.len()
                invariant
                    k <= line@.len(),
                    has == exists|i: int| 0 <= i < k && !crate::text::is_white(line@[i]),
                decreases line@.len() - k,
            {
                if !crate::text::char_is_white(line[k]) {
                    has = true;
                    proof {
                        assert(!crate::text::is_white(line@[k as int]));
                    }
                    k = line.len();
                } else {
                    k += 1;
                }
            }
            proof {
                assert(has == line_has_content(lseq[j as int]));
            }
            if has {
                let ghost pre = kept@;
                let mut copy: Vec<char> = Vec::new();
                crate::text::append_chars(&mut copy, line.as_slice());
                kept.push(copy);
                proof {
                    assert(crate::text::char_vec_views(kept@) =~= crate::text::char_vec_views(
                        pre,
                    ).push(lseq[j as int]));
                    assert(crate::text::char_vec_views(pre) + kept_lines(lseq, j as int)
                        =~= crate::text::char_vec_views(kept@) + kept_lines(lseq, j + 1));
                }
            }
            j += 1;
        }
        proof {
            assert(kept_lines(lseq, m as int) =~= Seq::<Seq<char>>::empty());
            assert(crate::text::char_vec_views(kept@) =~= kept_all);
        }
        let height = kept.len();
        let mut width: usize = 0;
        let mut cells: Vec<Cell> = Vec::new();
        let mut y: usize = 0;
        while y < height
            invariant
                y <= height,
                height == kept_all.len(),
                kept_all == kept_lines(crate::csv::spec_lines(csv@), 0),
                crate::text::char_vec_views(kept@) == kept_all,
                kept@.len() == height,
                forall|jj: int|
                    0 <= jj < kept_all.len() ==> crate::text::spec_split_char(
                        #[trigger] kept_all[jj],
                        ',',
                    ).len() == crate::text::spec_split_char(kept_all[0], ',').len(),
                height > 0 ==> crate::text::spec_split_char(kept_all[0], ',').len() * height
                    <= usize::MAX,
                width == if y == 0 {
                    0int
                } else {
                    crate::text::spec_split_char(kept_all[0], ',').len() as int
                },
                cells@.len() == y * width,
                y > 0 ==> cells@.len() == y * crate::text::spec_split_char(
                    kept_all[0],
                    ',',
                ).len(),
                forall|x: int, yy: int|
                    0 <= x < width && 0 <= yy < y ==> (#[trigger] cells@[yy * width + x]).position
                        == CellPosition(x as usize, yy as usize) && cells@[yy * width + x].unit
                        == UnitKind::Plain && cells@[yy * width + x].wf() && spec_loaded_cell(
                        kept_all,
                        x,
                        yy,
                        cells@[yy * width + x].content,
                    ),
            decreases height - y,
        {
            assert(kept@[y as int]@ == kept_all[y as int]);
            let fields = crate::text::split_char(kept[y].as_slice(), ',');
            proof {
                assert(crate::text::char_vec_views(fields@) == crate::text::spec_split_char(
                    kept_all[y as int],
                    ',',
                ));
            }
            let fcount = fields.len();
            if y == 0 {
                width = fcount;
                proof {
                    assert(0 * width as int == 0) by (nonlinear_arith);
                }
            }
            assert(fcount == width);
            let ghost row_base = cells@.len() as int;
            proof {
                assert(row_base == y * width);
                assert((y + 1) * width as int == y * width as int + width) by (nonlinear_arith);
                assert(y * width as int + width <= width * height) by (nonlinear_arith)
                    requires
                        y < height,
                        0 <= width,
                ;
                assert(width * height <= usize::MAX) by (nonlinear_arith)
                    requires
                        width == crate::text::spec_split_char(kept_all[0], ',').len(),
                        height > 0,
                        crate::text::spec_split_char(kept_all[0], ',').len() * height
                            <= usize::MAX,
                ;
            }
            let mut x: usize = 0;
            while x < width
                invariant
                    x <= width,
                    y < height,
                    height == kept_all.len(),
                    kept_all == kept_lines(crate::csv::spec_lines(csv@), 0),
                    row_base == y * width,
                    row_base + width <= usize::MAX,
                    width == crate::text::spec_split_char(kept_all[0], ',').len(),
                    crate::text::char_vec_views(fields@) == crate::text::spec_split_char(
                        kept_all[y as int],
                        ',',
                    ),
                    fields@.len() == width,
                    cells@.len() == row_base + x,
                    forall|xx: int|
                        0 <= xx < x ==> (#[trigger] cells@[row_base + xx]).position
                            == CellPosition(xx as usize, y as usize) && cells@[row_base + xx].unit
                            == UnitKind::Plain && cells@[row_base + xx].wf() && spec_loaded_cell(
                            kept_all,
                            xx,
                            y as int,
                            cells@[row_base + xx].content,
                        ),
                    forall|xx: int, yy: int|
                        0 <= xx < width && 0 <= yy < y ==> (#[trigger] cells@[yy * width + xx]).position
                            == CellPosition(xx as usize, yy as usize) && cells@[yy * width
                            + xx].unit == UnitKind::Plain && cells@[yy * width + xx].wf()
                            && spec_loaded_cell(kept_all, xx, yy, cells@[yy * width + xx].content),
                decreases width - x,
            {
                assert(fields@[x as int]@ == crate::text::spec_split_char(
                    kept_all[y as int],
                    ',',
                )[x as int]);
                let trimmed = crate::text::trim_chars(fields[x].as_slice());
                let text = chars_to_string(trimmed.as_slice());
                match CellContent::parse(text.as_str(), (x, y), (usize::MAX, usize::MAX)) {
                    Ok(content) => {
                        cells.push(
                            Cell {
                                content,
                                position: CellPosition(x, y),
                                unit: UnitKind::Plain,
                            },
                        );
                    },
                    Err(e) => {
                        proof {
                            assert(field_unparseable(kept_all, x as int, y as int)) by {
                                assert forall|c: CellContent|
                                    !#[trigger] spec_loaded_cell(
                                    kept_all,
                                    x as int,
                                    y as int,
                                    c,
                                ) by {
                                    lemma_parse_err_no_content(
                                        crate::text::spec_trim(
                                            crate::text::spec_split_char(
                                                kept_all[y as int],
                                                ',',
                                            )[x as int],
                                        ),
                                        (x, y),
                                        usize::MAX as nat,
                                        c,
                                    );
                                }
                            }
                        }
                        return Err(e);
                    },
                }
                x += 1;
                proof {
                    assert forall|xx: int, yy: int|
                        0 <= xx < width && 0 <= yy < y implies (#[trigger] cells@[yy * width
                        + xx]).position == CellPosition(xx as usize, yy as usize) && cells@[yy
                        * width + xx].unit == UnitKind::Plain && cells@[yy * width + xx].wf()
                        && spec_loaded_cell(
                        kept_all,
                        xx,
                        yy,
                        cells@[yy * width + xx].content,
                    ) by {
                        assert(yy * width + xx < row_base) by (nonlinear_arith)
                            requires
                                0 <= xx < width,
                                0 <= yy,
                                yy < y,
                                row_base == y * width,
                        ;
                    }
                }
            }
            y += 1;
            proof {
                assert(y * width as int == row_base + width);
                assert forall|xx: int, yy: int|
                    0 <= xx < width && 0 <= yy < y implies (#[trigger] cells@[yy * width
                    + xx]).position == CellPosition(xx as usize, yy as usize) && cells@[yy * width
                    + xx].unit == UnitKind::Plain && cells@[yy * width + xx].wf()
                    && spec_loaded_cell(kept_all, xx, yy, cells@[yy * width + xx].content) by {
                    if yy == y - 1 {
                        assert(cells@[yy * width + xx] == cells@[row_base + xx]);
                    }
                }
            }
        }
        let mut column_widths: Vec<usize> = Vec::new();
        let mut c: usize = 0;
        while c < width
            invariant
                c <= width,
                column_widths@.len() == c,
                forall|k: int| 0 <= k < c ==> #[trigger] column_widths@[k] == 10,
            decreases width - c,
        {
            column_widths.push(10);
            c += 1;
        }
        let sheet = Spreadsheet {
            current_cell: CellPosition(0, 0),
            width,
            height,
            cells,
            column_widths,
            used_cells: CellPosition(0, 0),
            fixed_rows: 0,
            path: None,
        };
        proof {
            assert(height * width == width * height) by (nonlinear_arith);
            assert(sheet.wf()) by {
                assert forall|i: int|
                    0 <= i < sheet.cells@.len() implies (#[trigger] sheet.cells@[i]).position
                    == spec_pos_at(i, width as int) && sheet.cells@[i].wf() by {
                    let xx = i % width as int;
                    let yy = i / width as int;
                    assert(yy * width + xx == i && 0 <= xx < width && 0 <= yy < height)
                        by (nonlinear_arith)
                        requires
                            width > 0,
                            0 <= i < width * height,
                            xx == i % width as int,
                            yy == i / width as int,
                    ;
                }
            }
            assert forall|i: int|
                0 <= i < sheet.cells@.len() implies (#[trigger] sheet.cells@[i]).unit
                == UnitKind::Plain by {
                let xx = i % width as int;
                let yy = i / width as int;
                assert(yy * width + xx == i && 0 <= xx < width && 0 <= yy < height)
                    by (nonlinear_arith)
                    requires
                        width > 0,
                        0 <= i < width * height,
                        xx == i % width as int,
                        yy == i / width as int,
                ;
            }
        }
        Ok(sheet)
    }

    /// The content a fill of the cursor's cell from another cell should
    /// take: text and decimals copy, integers shift by the positional
    /// offset, and formulas relocate to the cursor with their references
    /// shifted. Fails when the shifted integer overflows or the formula
    /// cannot be relocated.
    pub fn recommended_cell_content(&self, position: (usize, usize)) -> (r: Result<
        CellContent,
        CellError,
    >)
        requires
            self.wf(),
            position.0 < self.spec_width(),
            position.1 < self.spec_height(),
        ensures
            ({
                let from = self.spec_cells()[spec_index_of(
                    CellPosition(position.0, position.1),
                    self.spec_width(),
                )].content;
                let dx = self.spec_cursor().0 - position.0;
                let dy = self.spec_cursor().1 - position.1;
                match r {
                    Ok(c) => match from {
                        CellContent::Empty => c is Empty,
                        CellContent::Text(s) => c matches CellContent::Text(t) && t@ == s@,
                        CellContent::Number(n) => c == CellContent::Number(
                            (n + dx + dy) as i64,
                        ) && i64::MIN <= n + dx + dy <= i64::MAX,
                        CellContent::FloatNumber(d, k) => c == CellContent::FloatNumber(d, k),
                        CellContent::Formula(f) => c matches CellContent::Formula(g)
                            && g.position == self.spec_cursor() && g.value
                            == crate::formula::Value::Empty,
                    },
                    Err(e) => match from {
                        CellContent::Number(n) => !(i64::MIN <= n + dx + dy <= i64::MAX) && e
                            == CellError::NumberOverflow,
                        CellContent::Formula(f) => true,
                        _ => false,
                    },
                }
            }),
    {
        let from_cell = self.cell_at(position);
        let cx = self.current_cell.0;
        let cy = self.current_cell.1;
        match &from_cell.content {
            CellContent::Empty => Ok(CellContent::Empty),
            CellContent::Text(s) => Ok(CellContent::Text(s.clone())),
            CellContent::Number(n) => {
                let dx: i128 = cx as i128 - position.0 as i128;
                let dy: i128 = cy as i128 - position.1 as i128;
                let shifted: i128 = *n as i128 + dx + dy;
                if shifted < i64::MIN as i128 || shifted > i64::MAX as i128 {
                    Err(CellError::NumberOverflow)
                } else {
                    Ok(CellContent::Number(shifted as i64))
                }
            },
            CellContent::FloatNumber(d, k) => Ok(CellContent::FloatNumber(*d, *k)),
            CellContent::Formula(f) => {
                match f.moved_to(self.current_cell, (self.width, self.height)) {
                    Ok(g) => Ok(CellContent::Formula(g)),
                    Err(e) => Err(e),
                }
            },
        }
    }
}

/// Text whose parse fails is no content at all: no cell content is what the
/// parse relation demands of it.
proof fn lemma_parse_err_no_content(
    s: Seq<char>,
    position: (usize, usize),
    width: nat,
    c: CellContent,
)
    requires
        s.len() > 0,
        !crate::cell_content::spec_is_int(s),
        !crate::cell_content::spec_is_dec(s),
        s[0] == '=',
        crate::formula::spec_parse_raw(s.subrange(1, s.len() as int), width) is Err,
    ensures
        !spec_parse_rel(s, position, width, c),
{
}

} // verus!
