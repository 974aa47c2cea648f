//! The markup-writer boundary. The writer itself comes from the xmlwriter
//! crate; this module models a writer by the history of element, attribute
//! and text calls made on it, and wraps the four primitives the row
//! serializer uses.
//!
//! An event is a triple: a tag (0 opens an element, 1 writes an attribute,
//! 2 writes a text node, 3 closes an element) and the two strings handed to
//! the call (name and value for an attribute; name or text and an empty
//! second component otherwise).

use vstd::prelude::*;

use xmlwriter::XmlWriter;

verus! {

/// One recorded writer call.
pub type XmlEvent = (int, Seq<char>, Seq<char>);

/// The event that opens an element with the given name.
pub open spec fn ev_start(name: Seq<char>) -> XmlEvent {
    (0int, name, Seq::empty())
}

/// The event that writes an attribute with the given name and (unescaped)
/// value.
pub open spec fn ev_attr(name: Seq<char>, value: Seq<char>) -> XmlEvent {
    (1int, name, value)
}

/// The event that writes a text node with the given (unescaped) text.
pub open spec fn ev_text(text: Seq<char>) -> XmlEvent {
    (2int, text, Seq::empty())
}

/// The event that closes the innermost open element.
pub open spec fn ev_end() -> XmlEvent {
    (3int, Seq::empty(), Seq::empty())
}

#[verifier::external_type_specification]
#[verifier::external_body]
pub struct ExXmlWriter(XmlWriter);

/// The history of element, attribute and text calls made on a writer since
/// its creation, in order. Only the wrappers below say anything about it.
pub uninterp spec fn xml_events(w: XmlWriter) -> Seq<XmlEvent>;

/// How many elements a history leaves open. Closing with nothing open is a
/// no-op, exactly as the writer's own element stack treats it.
pub open spec fn open_depth(evs: Seq<XmlEvent>) -> nat
    decreases evs.len(),
{
    if evs.len() == 0 {
        0
    } else {
        let d = open_depth(evs.drop_last());
        if evs.last().0 == 0 {
            d + 1
        } else if evs.last().0 == 3 {
            if d > 0 {
                (d - 1) as nat
            } else {
                0
            }
        } else {
            d
        }
    }
}

/// How one more event changes the open depth.
pub proof fn lemma_open_depth_push(evs: Seq<XmlEvent>, ev: XmlEvent)
    ensures
        open_depth(evs.push(ev)) == ({
            let d = open_depth(evs);
            if ev.0 == 0 {
                d + 1
            } else if ev.0 == 3 {
                if d > 0 {
                    (d - 1) as nat
                } else {
                    0
                }
            } else {
                d
            }
        }),
{
    assert(evs.push(ev).drop_last() =~= evs);
    assert(evs.push(ev).last() == ev);
}

/// Whether a history leaves the writer accepting attributes: the last call
/// opened an element or wrote an attribute.
pub open spec fn attrs_open(evs: Seq<XmlEvent>) -> bool {
    evs.len() > 0 && (evs.last().0 == 0 || evs.last().0 == 1)
}

/// Relies on XmlWriter::start_element: writes the opening of an element with
/// the given name. It never panics.
#[verifier::external_body]
pub fn xw_start_element(w: &mut XmlWriter, name: &str)
    ensures
        xml_events(*final (w)) == xml_events(*old(w)).push(ev_start(name@)),
{
    w.start_element(name);
}

/// Relies on XmlWriter::write_attribute: writes one attribute of the element
/// just opened, escaping quotes in the value. It panics unless called while
/// the writer accepts attributes, which the precondition rules out.
#[verifier::external_body]
pub fn xw_write_attribute(w: &mut XmlWriter, name: &str, value: &str)
    requires
        attrs_open(xml_events(*old(w))),
    ensures
        xml_events(*final (w)) == xml_events(*old(w)).push(ev_attr(name@, value@)),
{
    w.write_attribute(name, value);
}

/// Relies on XmlWriter::write_text: writes a text node inside the innermost
/// open element, escaping '<'. It panics when no element is open, which the
/// precondition rules out.
#[verifier::external_body]
pub fn xw_write_text(w: &mut XmlWriter, text: &str)
    requires
        open_depth(xml_events(*old(w))) > 0,
    ensures
        xml_events(*final (w)) == xml_events(*old(w)).push(ev_text(text@)),
{
    w.write_text(text);
}

/// Relies on XmlWriter::end_element: closes the innermost open element, and
/// does nothing when none is open. It never panics.
#[verifier::external_body]
pub fn xw_end_element(w: &mut XmlWriter)
    ensures
        xml_events(*final (w)) == xml_events(*old(w)).push(ev_end()),
{
    w.end_element();
}

} // verus!
