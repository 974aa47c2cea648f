//! A single row of the document: an ordered sequence of cells, a column
//! cursor for automatic reference allocation, and the set of references in
//! use. Appends allocate the next canonical reference; explicit insertion
//! validates the cell's own reference; the row finally serializes itself,
//! by value, through the markup writer.

use vstd::prelude::*;

use xmlwriter::XmlWriter;

use crate::RowError;
use crate::cell::{Cell, CellKind, CellView, cell_events};
use crate::column::{
    all_upper, letters_to_number, letters_val, lemma_col_letters_upper, lemma_letters_roundtrip,
    number_to_letters,
};
use crate::numtext::{is_float_literal, is_float_literal_text};
use crate::reference::{
    alpha_part, cell_ref, dec_digits, dec_string, lemma_cell_ref_parts, lemma_dec_digits_roundtrip,
    rest_part, row_matches, row_part_matches, split_cell_ref,
};
use crate::xml::{XmlEvent, ev_attr, ev_end, ev_start, xml_events};
use crate::xml::{xw_end_element, xw_start_element, xw_write_attribute};

verus! {

/// The mathematical content of a row: its fixed number, the next column to
/// allocate, its cells in insertion order, and the references in use, in the
/// same order as the cells they belong to.
pub struct RowView {
    pub row_number: nat,
    pub column_number: nat,
    pub cells: Seq<CellView>,
    pub used: Seq<Seq<char>>,
}

/// What a reference stored in a row always satisfies: a non-empty uppercase
/// column part whose value lies below the cursor bound, and a row part that
/// names the row's own number.
pub open spec fn ref_ok(r: Seq<char>, row_number: nat, col_bound: nat) -> bool {
    &&& alpha_part(r).len() > 0
    &&& all_upper(alpha_part(r))
    &&& letters_val(alpha_part(r)) < col_bound
    &&& row_matches(rest_part(r), row_number)
}

/// The row's invariant: cells and used references mirror each other exactly
/// (same length, same order, no drift), no reference occurs twice, every
/// reference addresses this row, and every used column lies strictly below
/// the cursor — so the cursor can never allocate a reference already in use.
pub open spec fn wf_view(v: RowView) -> bool {
    &&& 1 <= v.row_number <= usize::MAX
    &&& 1 <= v.column_number <= usize::MAX
    &&& v.used.len() == v.cells.len()
    &&& forall|i: int| 0 <= i < v.cells.len() ==> (#[trigger] v.cells[i].reference) == Some(v.used[i])
    &&& forall|i: int|
        0 <= i < v.used.len() ==> ref_ok(#[trigger] v.used[i], v.row_number, v.column_number)
    &&& forall|i: int, j: int| 0 <= i < j < v.used.len() ==> v.used[i] != v.used[j]
}

/// The reference the cursor would allocate next is never one already in use:
/// every used reference has a column below the cursor, while the next
/// allocation has the cursor's own column.
pub proof fn lemma_allocator_fresh(v: RowView)
    requires
        wf_view(v),
    ensures
        !v.used.contains(cell_ref(v.column_number, v.row_number)),
{
    let r = cell_ref(v.column_number, v.row_number);
    lemma_cell_ref_parts(v.column_number, v.row_number);
    lemma_letters_roundtrip(v.column_number);
    if v.used.contains(r) {
        let i = choose|i: int| 0 <= i < v.used.len() && v.used[i] == r;
        assert(ref_ok(v.used[i], v.row_number, v.column_number));
        assert(letters_val(alpha_part(r)) == v.column_number);
    }
}

/// Cursor-only movement never registers a reference: advancing or skipping
/// leaves the used set exactly as it was, so a reference that was free
/// before the movement is still free after it, and an explicit insertion at
/// the skipped column is not rejected as a duplicate (`add_cell` reports
/// `DuplicateReference` exactly when the reference is in the used set).
pub proof fn lemma_skipped_column_stays_free(before: RowView, after: RowView, s: Seq<char>)
    requires
        after.used == before.used,
        !before.used.contains(s),
    ensures
        !after.used.contains(s),
{
}

/// A row under construction.
pub struct Row {
    cells: Vec<Cell>,
    row_number: usize,
    column_number: usize,
    cell_reference_set: Vec<String>,
}

impl View for Row {
    type V = RowView;

    closed spec fn view(&self) -> RowView {
        RowView {
            row_number: self.row_number as nat,
            column_number: self.column_number as nat,
            cells: self.cells@.map_values(|c: Cell| c@),
            used: self.cell_reference_set@.map_values(|s: String| s@),
        }
    }
}

/// The writer calls that serialize a sequence of cells, in order.
pub open spec fn cells_events(cs: Seq<CellView>) -> Seq<XmlEvent>
    decreases cs.len(),
{
    if cs.len() == 0 {
        Seq::empty()
    } else {
        cells_events(cs.drop_last()) + cell_events(cs.last())
    }
}

/// The writer calls that serialize a whole row: a "row" element whose "r"
/// attribute is the decimal row number and whose children are the cells in
/// sequence order, always opened and closed in balance.
pub open spec fn row_events(v: RowView) -> Seq<XmlEvent> {
    seq![ev_start("row"@), ev_attr("r"@, dec_digits(v.row_number))] + cells_events(v.cells)
        + seq![ev_end()]
}

/// Serializing any cell sequence is balanced: it leaves as many elements
/// open as it found.
proof fn lemma_cells_events_balanced(evs: Seq<XmlEvent>, cs: Seq<CellView>)
    ensures
        crate::xml::open_depth(evs + cells_events(cs)) == crate::xml::open_depth(evs),
    decreases cs.len(),
{
    if cs.len() == 0 {
        assert(evs + cells_events(cs) =~= evs);
    } else {
        lemma_cells_events_balanced(evs, cs.drop_last());
        assert(evs + cells_events(cs) =~= (evs + cells_events(cs.drop_last())) + cell_events(
            cs.last(),
        ));
        crate::cell::lemma_cell_events_balanced(evs + cells_events(cs.drop_last()), cs.last());
    }
}

/// A row's serialization is always well-formed, whatever the cell count:
/// every element it opens is closed again, so it leaves exactly as many
/// elements open as it found.
pub proof fn lemma_row_events_balanced(evs: Seq<XmlEvent>, v: RowView)
    ensures
        crate::xml::open_depth(evs + row_events(v)) == crate::xml::open_depth(evs),
{
    let head = evs.push(ev_start("row"@)).push(ev_attr("r"@, dec_digits(v.row_number)));
    crate::xml::lemma_open_depth_push(evs, ev_start("row"@));
    crate::xml::lemma_open_depth_push(evs.push(ev_start("row"@)), ev_attr(
        "r"@,
        dec_digits(v.row_number),
    ));
    lemma_cells_events_balanced(head, v.cells);
    assert(evs + row_events(v) =~= (head + cells_events(v.cells)).push(ev_end()));
    crate::xml::lemma_open_depth_push(head + cells_events(v.cells), ev_end());
}

impl Row {
    /// Whether the row's invariant holds; `new` establishes it and every
    /// operation preserves it.
    pub open spec fn wf(&self) -> bool {
        wf_view(self@)
    }

    /// Makes an empty row bound to the given positive row number, with the
    /// cursor at the first column.
    pub fn new(row_number: usize) -> (r: Row)
        requires
            1 <= row_number,
        ensures
            r.wf(),
            r@.row_number == row_number,
            r@.column_number == 1,
            r@.cells == Seq::<CellView>::empty(),
            r@.used == Seq::<Seq<char>>::empty(),
    {
        let r = Row {
            row_number,
            cells: Vec::new(),
            column_number: 1,
            cell_reference_set: Vec::new(),
        };
        proof {
            assert(r@.cells =~= Seq::<CellView>::empty());
            assert(r@.used =~= Seq::<Seq<char>>::empty());
        }
        r
    }

    /// Allocates the reference for the cursor's column and advances the
    /// cursor by one. It registers nothing: callers that create a cell
    /// record the reference themselves, and cursor-only movement leaves it
    /// unrecorded on purpose.
    pub(crate) fn get_next_cell_ref(&mut self) -> (r: String)
        requires
            old(self).wf(),
            old(self)@.column_number < usize::MAX,
        ensures
            final (self).wf(),
            r@ == cell_ref(old(self)@.column_number, old(self)@.row_number),
            final (self)@.column_number == old(self)@.column_number + 1,
            final (self)@.row_number == old(self)@.row_number,
            final (self)@.cells == old(self)@.cells,
            final (self)@.used == old(self)@.used,
    {
        if self.column_number == 0 {
            // Defensive special case for an uninitialized cursor; the
            // invariant keeps the cursor at 1 or above, so this is dead.
            let mut s = "A".to_owned();
            s.append(dec_string(self.row_number).as_str());
            self.column_number = self.column_number + 1;
            s
        } else {
            let mut letters = number_to_letters(self.column_number);
            letters.append(dec_string(self.row_number).as_str());
            self.column_number = self.column_number + 1;
            proof {
                assert(forall|i: int|
                    0 <= i < self@.used.len() ==> ref_ok(
                        #[trigger] self@.used[i],
                        self@.row_number,
                        self@.column_number,
                    ));
            }
            letters
        }
    }

    /// Appends a shared-string text cell under the next allocated
    /// reference; it always succeeds and returns the new cell's index.
    /// The allocated reference was not in use before the call.
    pub fn add_string(&mut self, value: String) -> (idx: usize)
        requires
            old(self).wf(),
            old(self)@.column_number < usize::MAX,
        ensures
            final (self).wf(),
            final (self)@.row_number == old(self)@.row_number,
            final (self)@.column_number == old(self)@.column_number + 1,
            final (self)@.cells == old(self)@.cells.push(
                (CellView {
                    value: value@,
                    reference: Some(cell_ref(old(self)@.column_number, old(self)@.row_number)),
                    kind: CellKind::SharedString,
                }),
            ),
            final (self)@.used == old(self)@.used.push(
                cell_ref(old(self)@.column_number, old(self)@.row_number),
            ),
            !old(self)@.used.contains(cell_ref(old(self)@.column_number, old(self)@.row_number)),
            idx == old(self)@.cells.len(),
    {
        proof {
            lemma_allocator_fresh(self@);
        }
        let cell_reference = self.get_next_cell_ref();
        let cell = Cell::from_string(value, cell_reference.clone(), false);
        self.push_allocated(cell, cell_reference);
        self.cells.len() - 1
    }

    /// Appends an inline text cell under the next allocated reference; it
    /// always succeeds and returns the new cell's index. The allocated
    /// reference was not in use before the call.
    pub fn add_inline_string(&mut self, value: String) -> (idx: usize)
        requires
            old(self).wf(),
            old(self)@.column_number < usize::MAX,
        ensures
            final (self).wf(),
            final (self)@.row_number == old(self)@.row_number,
            final (self)@.column_number == old(self)@.column_number + 1,
            final (self)@.cells == old(self)@.cells.push(
                (CellView {
                    value: value@,
                    reference: Some(cell_ref(old(self)@.column_number, old(self)@.row_number)),
                    kind: CellKind::InlineString,
                }),
            ),
            final (self)@.used == old(self)@.used.push(
                cell_ref(old(self)@.column_number, old(self)@.row_number),
            ),
            !old(self)@.used.contains(cell_ref(old(self)@.column_number, old(self)@.row_number)),
            idx == old(self)@.cells.len(),
    {
        proof {
            lemma_allocator_fresh(self@);
        }
        let cell_reference = self.get_next_cell_ref();
        let cell = Cell::from_string(value, cell_reference.clone(), true);
        self.push_allocated(cell, cell_reference);
        self.cells.len() - 1
    }

    /// Appends a numeric cell under the next allocated reference. It
    /// succeeds exactly when the value text is a floating-point literal; on
    /// failure the row is left unchanged — no reference is allocated, the
    /// cursor does not move, and no cell is appended.
    pub fn add_number(&mut self, value: String) -> (r: Result<usize, RowError>)
        requires
            old(self).wf(),
            old(self)@.column_number < usize::MAX,
        ensures
            final (self).wf(),
            r is Ok <==> is_float_literal(value@),
            r is Err ==> final (self)@ == old(self)@ && r->Err_0 == RowError::NumberParse,
            r is Ok ==> {
                &&& final (self)@.row_number == old(self)@.row_number
                &&& final (self)@.column_number == old(self)@.column_number + 1
                &&& final (self)@.cells == old(self)@.cells.push(
                    (CellView {
                        value: value@,
                        reference: Some(cell_ref(old(self)@.column_number, old(self)@.row_number)),
                        kind: CellKind::Number,
                    }),
                )
                &&& final (self)@.used == old(self)@.used.push(
                    cell_ref(old(self)@.column_number, old(self)@.row_number),
                )
                &&& !old(self)@.used.contains(
                    cell_ref(old(self)@.column_number, old(self)@.row_number),
                )
                &&& r->Ok_0 == old(self)@.cells.len()
            },
    {
        if !is_float_literal_text(value.as_str()) {
            return Err(RowError::NumberParse);
        }
        proof {
            lemma_allocator_fresh(self@);
        }
        let cell_reference = self.get_next_cell_ref();
        match Cell::from_number(value, cell_reference.clone()) {
            Ok(cell) => {
                self.push_allocated(cell, cell_reference);
                Ok(self.cells.len() - 1)
            },
            Err(_) => {
                proof {
                    assert(false);
                }
                Err(RowError::NumberParse)
            },
        }
    }

    /// Records a cell built on a freshly allocated reference: the cursor has
    /// already moved past the reference's column, and the reference is known
    /// not to be in use.
    fn push_allocated(&mut self, cell: Cell, cell_reference: String)
        requires
            old(self).wf(),
            cell@.reference == Some(cell_reference@),
            cell_reference@ == cell_ref(
                (old(self)@.column_number - 1) as nat,
                old(self)@.row_number,
            ),
            old(self)@.column_number >= 2,
            !old(self)@.used.contains(cell_reference@),
        ensures
            final (self).wf(),
            final (self)@.row_number == old(self)@.row_number,
            final (self)@.column_number == old(self)@.column_number,
            final (self)@.cells == old(self)@.cells.push(cell@),
            final (self)@.used == old(self)@.used.push(cell_reference@),
    {
        proof {
            let col = (self@.column_number - 1) as nat;
            let row = self@.row_number;
            lemma_cell_ref_parts(col, row);
            lemma_letters_roundtrip(col);
            lemma_col_letters_upper(col);
            crate::column::lemma_col_letters_nonempty(col);
            lemma_dec_digits_roundtrip(row);
        }
        let ghost pre = self@;
        self.cell_reference_set.push(cell_reference);
        self.cells.push(cell);
        proof {
            let col = (pre.column_number - 1) as nat;
            let fresh = cell_ref(col, pre.row_number);
            assert(self@.cells =~= pre.cells.push(cell@));
            assert(self@.used =~= pre.used.push(fresh));
            assert(ref_ok(fresh, self@.row_number, self@.column_number));
            assert forall|i: int| 0 <= i < self@.used.len() implies ref_ok(
                #[trigger] self@.used[i],
                self@.row_number,
                self@.column_number,
            ) by {
                if i < pre.used.len() {
                    assert(ref_ok(pre.used[i], pre.row_number, pre.column_number));
                }
            }
            assert forall|i: int, j: int|
                0 <= i < j < self@.used.len() implies self@.used[i] != self@.used[j] by {
                if j == pre.used.len() {
                    assert(pre.used[i] != fresh);
                }
            }
        }
    }

    /// Inserts a cell that already carries a reference. The reference must
    /// be absent from the row, partition into non-empty column and row
    /// parts, decode as uppercase column letters that fit the cursor, and
    /// name this row; each failure is reported in that order and leaves the
    /// row unchanged. On success the cursor moves to just past the inserted
    /// column if that is beyond it, and otherwise stays, so it keeps its
    /// monotone guarantee.
    pub fn add_cell(&mut self, cell: Cell) -> (r: Result<usize, RowError>)
        requires
            old(self).wf(),
        ensures
            final (self).wf(),
            final (self)@.row_number == old(self)@.row_number,
            cell@.reference is None ==> r == Err::<usize, RowError>(RowError::MissingReference)
                && final (self)@ == old(self)@,
            cell@.reference matches Some(s) ==> {
                &&& old(self)@.used.contains(s) ==> r == Err::<usize, RowError>(
                    RowError::DuplicateReference,
                ) && final (self)@ == old(self)@
                &&& !old(self)@.used.contains(s) && !column_decodes(s) ==> r == Err::<
                    usize,
                    RowError,
                >(RowError::InvalidReference) && final (self)@ == old(self)@
                &&& !old(self)@.used.contains(s) && column_decodes(s) && !row_matches(
                    rest_part(s),
                    old(self)@.row_number,
                ) ==> r == Err::<usize, RowError>(RowError::RowMismatch) && final (self)@ == old(
                    self,
                )@
                &&& !old(self)@.used.contains(s) && column_decodes(s) && row_matches(
                    rest_part(s),
                    old(self)@.row_number,
                ) ==> {
                    &&& r is Ok && r->Ok_0 == old(self)@.cells.len()
                    &&& final (self)@.cells == old(self)@.cells.push(cell@)
                    &&& final (self)@.used == old(self)@.used.push(s)
                    &&& final (self)@.column_number == (if letters_val(alpha_part(s)) + 1 > old(
                        self,
                    )@.column_number {
                        letters_val(alpha_part(s)) + 1
                    } else {
                        old(self)@.column_number as int
                    })
                }
            },
    {
        let has_reference = self.cell_contains_reference(&cell);
        if !has_reference {
            return Err(RowError::MissingReference);
        }
        let cell_reference = self.clone_reference(&cell);
        if self.contains_reference(&cell_reference) {
            return Err(RowError::DuplicateReference);
        }
        let (column_ref, row_ref) = match split_cell_ref(cell_reference.as_str()) {
            Ok(parts) => parts,
            Err(e) => {
                return Err(e);
            },
        };
        let column = match letters_to_number(column_ref.as_str()) {
            Ok(c) => c,
            Err(e) => {
                return Err(e);
            },
        };
        if column == usize::MAX {
            return Err(RowError::InvalidReference);
        }
        if !row_part_matches(row_ref.as_str(), self.row_number) {
            return Err(RowError::RowMismatch);
        }
        let ghost pre = self@;
        let ghost s = cell_reference@;
        self.cell_reference_set.push(cell_reference);
        self.cells.push(cell);
        if column >= self.column_number {
            self.column_number = column + 1;
        }
        proof {
            assert(self@.cells =~= pre.cells.push(cell@));
            assert(self@.used =~= pre.used.push(s));
            assert forall|i: int| 0 <= i < self@.used.len() implies ref_ok(
                #[trigger] self@.used[i],
                self@.row_number,
                self@.column_number,
            ) by {
                if i < pre.used.len() {
                    assert(ref_ok(pre.used[i], pre.row_number, pre.column_number));
                }
            }
            assert forall|i: int, j: int|
                0 <= i < j < self@.used.len() implies self@.used[i] != self@.used[j] by {
                if j == pre.used.len() {
                    assert(!pre.used.contains(s));
                    assert(pre.used[i] != s);
                }
            }
        }
        Ok(self.cells.len() - 1)
    }

    /// Whether the given cell carries a reference.
    fn cell_contains_reference(&self, cell: &Cell) -> (b: bool)
        ensures
            b == (cell@.reference is Some),
    {
        cell.get_reference().is_some()
    }

    /// A copy of the given cell's reference.
    fn clone_reference(&self, cell: &Cell) -> (r: String)
        requires
            cell@.reference is Some,
        ensures
            r@ == cell@.reference->0,
    {
        match cell.get_reference() {
            Some(reference) => reference.clone(),
            None => String::new(),
        }
    }

    /// Whether the given reference is already in use in this row.
    fn contains_reference(&self, reference: &String) -> (b: bool)
        ensures
            b == self@.used.contains(reference@),
    {
        let mut i: usize = 0;
        while i < self.cell_reference_set.len()
            invariant
                0 <= i <= self.cell_reference_set.len(),
                forall|j: int| 0 <= j < i ==> self@.used[j] != reference@,
                self@.used.len() == self.cell_reference_set.len(),
            decreases self.cell_reference_set.len() - i,
        {
            if self.cell_reference_set[i] == *reference {
                assert(self@.used[i as int] == reference@);
                return true;
            }
            i = i + 1;
        }
        false
    }

    /// Read and write access to the cell sequence for post-hoc mutation of
    /// cell contents; references are not re-validated, so the row's
    /// invariant is owed again only as far as the caller keeps it.
    pub fn get_cells_mut(&mut self) -> (r: &mut Vec<Cell>)
        ensures
            (*r)@.map_values(|c: Cell| c@) == old(self)@.cells,
            final (self)@.cells == final (r)@.map_values(|c: Cell| c@),
            final (self)@.row_number == old(self)@.row_number,
            final (self)@.column_number == old(self)@.column_number,
            final (self)@.used == old(self)@.used,
    {
        &mut self.cells
    }

    /// Serializes the row through the writer, consuming it: exactly the
    /// calls that `row_events` lists, appended to the writer's history.
    pub fn to_xml(self, writer: &mut XmlWriter)
        ensures
            xml_events(*final (writer)) == xml_events(*old(writer)) + row_events(self@),
    {
        let ghost evs0 = xml_events(*writer);
        let ghost head = seq![ev_start("row"@), ev_attr("r"@, dec_digits(self@.row_number))];
        xw_start_element(writer, "row");
        let row_num = dec_string(self.row_number);
        xw_write_attribute(writer, "r", row_num.as_str());
        proof {
            assert(xml_events(*writer) =~= evs0 + head + cells_events(self@.cells.take(0)));
        }
        let mut i: usize = 0;
        while i < self.cells.len()
            invariant
                0 <= i <= self.cells.len(),
                self@.cells.len() == self.cells.len(),
                xml_events(*writer) == evs0 + head + cells_events(self@.cells.take(i as int)),
            decreases self.cells.len() - i,
        {
            let cell = &self.cells[i];
            cell.to_xml(writer);
            proof {
                let t = self@.cells.take(i + 1);
                assert(t.drop_last() =~= self@.cells.take(i as int));
                assert(t.last() == self@.cells[i as int]);
                assert(cell@ == self@.cells[i as int]);
                assert(xml_events(*writer) =~~= evs0 + head + cells_events(t));
            }
            i = i + 1;
        }
        xw_end_element(writer);
        proof {
            assert(self@.cells.take(self.cells.len() as int) =~= self@.cells);
            assert(xml_events(*writer) =~~= evs0 + row_events(self@));
        }
    }
}

/// Whether a reference's column letters decode to a column the cursor can
/// stand past: a non-empty uppercase column part, a non-empty row part, and
/// a column value below usize::MAX.
pub open spec fn column_decodes(s: Seq<char>) -> bool {
    &&& alpha_part(s).len() > 0
    &&& rest_part(s).len() > 0
    &&& all_upper(alpha_part(s))
    &&& letters_val(alpha_part(s)) < usize::MAX
}

/// Cursor-only navigation over a row: advancing or skipping reserves
/// columns as intentionally blank without creating cells and without
/// recording the skipped references as used, so a later explicit insertion
/// into a skipped column is permitted.
pub struct ColMovement {
    row: Row,
}

impl View for ColMovement {
    type V = RowView;

    closed spec fn view(&self) -> RowView {
        self.row@
    }
}

impl ColMovement {
    /// Whether the underlying row's invariant holds.
    pub open spec fn wf(&self) -> bool {
        wf_view(self@)
    }

    /// Takes charge of a row for cursor-only navigation.
    pub fn new(row: Row) -> (m: ColMovement)
        ensures
            m@ == row@,
    {
        ColMovement { row }
    }

    /// Moves the cursor to the next column without creating a cell and
    /// without recording anything as used.
    pub fn next(&mut self)
        requires
            old(self).wf(),
            old(self)@.column_number < usize::MAX,
        ensures
            final (self).wf(),
            final (self)@.column_number == old(self)@.column_number + 1,
            final (self)@.row_number == old(self)@.row_number,
            final (self)@.cells == old(self)@.cells,
            final (self)@.used == old(self)@.used,
    {
        let _ = self.row.get_next_cell_ref();
    }

    /// Skips `n` columns: `n` successive single advances.
    pub fn skip(&mut self, n: usize)
        requires
            old(self).wf(),
            old(self)@.column_number + n <= usize::MAX,
        ensures
            final (self).wf(),
            final (self)@.column_number == old(self)@.column_number + n,
            final (self)@.row_number == old(self)@.row_number,
            final (self)@.cells == old(self)@.cells,
            final (self)@.used == old(self)@.used,
    {
        let mut k: usize = 0;
        while k < n
            invariant
                0 <= k <= n,
                self.wf(),
                self@.column_number == old(self)@.column_number + k,
                old(self)@.column_number + n <= usize::MAX,
                self@.row_number == old(self)@.row_number,
                self@.cells == old(self)@.cells,
                self@.used == old(self)@.used,
            decreases n - k,
        {
            let _ = self.row.get_next_cell_ref();
            k = k + 1;
        }
    }

    /// Hands the row back once navigation is done.
    pub fn into_row(self) -> (r: Row)
        ensures
            r@ == self@,
    {
        self.row
    }
}

} // verus!
