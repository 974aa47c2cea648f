//! The value-bearing cell entity. A cell optionally carries a reference
//! string once assigned; the row only ever reads that reference, never the
//! payload. A cell serializes itself through the markup writer.

use vstd::prelude::*;

use xmlwriter::XmlWriter;

use crate::RowError;
use crate::numtext::is_float_literal;
use crate::numtext::is_float_literal_text;
use crate::xml::{XmlEvent, ev_attr, ev_end, ev_start, ev_text, xml_events};
use crate::xml::{xw_end_element, xw_start_element, xw_write_attribute, xw_write_text};

verus! {

/// How a cell's value is to be stored in the document.
#[derive(Clone, Copy, Debug, PartialEq, Eq, Structural)]
pub enum CellKind {
    /// Text kept in the document's shared-string table.
    SharedString,
    /// Text written inline in the cell.
    InlineString,
    /// A numeric value, kept as its literal text.
    Number,
}

/// The mathematical content of a cell: its value text, its optional
/// reference string, and its kind.
pub struct CellView {
    pub value: Seq<char>,
    pub reference: Option<Seq<char>>,
    pub kind: CellKind,
}

/// A value-bearing cell. The value is kept as text; a numeric cell's text
/// has been validated as a floating-point literal on construction.
pub struct Cell {
    value: String,
    reference: Option<String>,
    kind: CellKind,
}

impl View for Cell {
    type V = CellView;

    closed spec fn view(&self) -> CellView {
        CellView {
            value: self.value@,
            reference: match self.reference {
                Some(r) => Some(r@),
                None => None,
            },
            kind: self.kind,
        }
    }
}

/// The writer calls that serialize one cell: a "c" element carrying the
/// cell's reference as its "r" attribute (when one is assigned) and the
/// value text as its content.
pub open spec fn cell_events(c: CellView) -> Seq<XmlEvent> {
    seq![ev_start("c"@)] + (match c.reference {
        Some(r) => seq![ev_attr("r"@, r)],
        None => Seq::<XmlEvent>::empty(),
    }) + seq![ev_text(c.value), ev_end()]
}

/// A cell's serialization is balanced: it opens exactly one element and
/// closes it, so it leaves as many elements open as it found.
pub proof fn lemma_cell_events_balanced(evs: Seq<XmlEvent>, c: CellView)
    ensures
        crate::xml::open_depth(evs + cell_events(c)) == crate::xml::open_depth(evs),
{
    match c.reference {
        Some(r) => {
            assert(evs + cell_events(c) =~= evs.push(ev_start("c"@)).push(ev_attr("r"@, r)).push(
                ev_text(c.value),
            ).push(ev_end()));
            crate::xml::lemma_open_depth_push(evs, ev_start("c"@));
            crate::xml::lemma_open_depth_push(evs.push(ev_start("c"@)), ev_attr("r"@, r));
            crate::xml::lemma_open_depth_push(
                evs.push(ev_start("c"@)).push(ev_attr("r"@, r)),
                ev_text(c.value),
            );
            crate::xml::lemma_open_depth_push(
                evs.push(ev_start("c"@)).push(ev_attr("r"@, r)).push(ev_text(c.value)),
                ev_end(),
            );
        },
        None => {
            assert(evs + cell_events(c) =~= evs.push(ev_start("c"@)).push(ev_text(c.value)).push(
                ev_end(),
            ));
            crate::xml::lemma_open_depth_push(evs, ev_start("c"@));
            crate::xml::lemma_open_depth_push(evs.push(ev_start("c"@)), ev_text(c.value));
            crate::xml::lemma_open_depth_push(
                evs.push(ev_start("c"@)).push(ev_text(c.value)),
                ev_end(),
            );
        },
    }
}

impl Cell {
    /// Makes a text cell carrying the given reference; `inline` selects
    /// inline storage over the shared-string table. It never fails.
    pub fn from_string(value: String, reference: String, inline: bool) -> (c: Cell)
        ensures
            c@.value == value@,
            c@.reference == Some(reference@),
            c@.kind == (if inline {
                CellKind::InlineString
            } else {
                CellKind::SharedString
            }),
    {
        Cell {
            value,
            reference: Some(reference),
            kind: if inline {
                CellKind::InlineString
            } else {
                CellKind::SharedString
            },
        }
    }

    /// Makes a text cell with no reference assigned yet; a row assigns one
    /// on explicit insertion only if the cell already carries it, so such a
    /// cell exercises the missing-reference failure.
    pub fn new_string(value: String, inline: bool) -> (c: Cell)
        ensures
            c@.value == value@,
            c@.reference is None,
            c@.kind == (if inline {
                CellKind::InlineString
            } else {
                CellKind::SharedString
            }),
    {
        Cell {
            value,
            reference: None,
            kind: if inline {
                CellKind::InlineString
            } else {
                CellKind::SharedString
            },
        }
    }

    /// Makes a numeric cell, validating the value as a floating-point
    /// literal. Succeeds exactly when the text is such a literal; on failure
    /// nothing is constructed.
    pub fn from_number(value: String, reference: String) -> (r: Result<Cell, RowError>)
        ensures
            r is Ok <==> is_float_literal(value@),
            r is Ok ==> r->Ok_0@.value == value@ && r->Ok_0@.reference == Some(reference@)
                && r->Ok_0@.kind == CellKind::Number,
            r is Err ==> r->Err_0 == RowError::NumberParse,
    {
        if is_float_literal_text(value.as_str()) {
            Ok(Cell { value, reference: Some(reference), kind: CellKind::Number })
        } else {
            Err(RowError::NumberParse)
        }
    }

    /// The cell's reference string, if one has been assigned.
    pub fn get_reference(&self) -> (r: &Option<String>)
        ensures
            r is Some <==> self@.reference is Some,
            r is Some ==> r->0@ == self@.reference->0,
    {
        &self.reference
    }

    /// The cell's value text.
    pub fn get_value(&self) -> (r: &String)
        ensures
            r@ == self@.value,
    {
        &self.value
    }

    /// The cell's kind.
    pub fn get_kind(&self) -> (r: CellKind)
        ensures
            r == self@.kind,
    {
        self.kind
    }

    /// Replaces the cell's value text, leaving its reference and kind as
    /// they are.
    pub fn set_value(&mut self, value: String)
        ensures
            final (self)@.value == value@,
            final (self)@.reference == old(self)@.reference,
            final (self)@.kind == old(self)@.kind,
    {
        self.value = value;
    }

    /// Serializes the cell through the writer: exactly the calls that
    /// `cell_events` lists, appended to the writer's history.
    pub fn to_xml(&self, writer: &mut XmlWriter)
        ensures
            xml_events(*final (writer)) == xml_events(*old(writer)) + cell_events(self@),
    {
        let ghost evs0 = xml_events(*writer);
        xw_start_element(writer, "c");
        proof {
            crate::xml::lemma_open_depth_push(evs0, ev_start("c"@));
        }
        match &self.reference {
            Some(r) => {
                xw_write_attribute(writer, "r", r.as_str());
                proof {
                    crate::xml::lemma_open_depth_push(
                        evs0.push(ev_start("c"@)),
                        ev_attr("r"@, r@),
                    );
                }
            },
            None => {},
        }
        xw_write_text(writer, self.value.as_str());
        xw_end_element(writer);
        proof {
            assert(xml_events(*writer) =~~= xml_events(*old(writer)) + cell_events(self@));
        }
    }
}

} // verus!
