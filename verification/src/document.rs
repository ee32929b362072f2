//! What the index stores of an event.

use tantivy::schema::Field as FieldHandle;
use tantivy::TantivyDocument;
use vstd::prelude::*;
use vstd::utf8::encode_utf8;

use crate::events::Event;
use crate::events::EventType;
use crate::query::TermView;
use crate::schema::Field;

verus! {

/// A value of a field.
pub enum FieldValue {
    Text(Seq<char>),
    Number(u64),
}

/// `tantivy::TantivyDocument`, the values of the fields of a document.
#[verifier::external_type_specification]
#[verifier::external_body]
pub struct ExTantivyDocument(TantivyDocument);

/// The values that a document holds, each with the number of its field.
pub uninterp spec fn document_values(doc: TantivyDocument) -> Seq<(u32, FieldValue)>;

/// How many bytes some values take at most.
pub open spec fn values_size(values: Seq<(u32, FieldValue)>) -> int
    decreases values.len(),
{
    if values.len() == 0 {
        0
    } else {
        values_size(values.drop_last()) + 8 + match values.last().1 {
            FieldValue::Text(text) => encode_utf8(text).len() as int,
            FieldValue::Number(_) => 0,
        }
    }
}

/// Whether a document can hold some values: it finds them again by addresses
/// of 32 bits.
pub open spec fn values_fit(values: Seq<(u32, FieldValue)>) -> bool {
    values_size(values) <= u32::MAX
}

/// `TantivyDocument::default` is a document without any values.
#[verifier::external_body]
fn new_document() -> (doc: TantivyDocument)
    ensures
        document_values(doc) == Seq::<(u32, FieldValue)>::empty(),
{
    TantivyDocument::default()
}

/// `TantivyDocument::add_text` adds a text behind the other values, as long as
/// their addresses fit. It panics if the number of the field takes more than
/// 16 bits.
#[verifier::external_body]
fn add_text(doc: &mut TantivyDocument, field: u32, text: &str)
    requires
        field <= u16::MAX,
    ensures
        values_fit(document_values(*old(doc)).push((field, FieldValue::Text(text@))))
            ==> document_values(*final(doc)) == document_values(*old(doc)).push(
            (field, FieldValue::Text(text@)),
        ),
{
    doc.add_text(FieldHandle::from_field_id(field), text)
}

/// `TantivyDocument::add_u64` adds a number behind the other values, as long
/// as their addresses fit. It panics if the number of the field takes more
/// than 16 bits.
#[verifier::external_body]
fn add_u64(doc: &mut TantivyDocument, field: u32, value: u64)
    requires
        field <= u16::MAX,
    ensures
        values_fit(document_values(*old(doc)).push((field, FieldValue::Number(value))))
            ==> document_values(*final(doc)) == document_values(*old(doc)).push(
            (field, FieldValue::Number(value)),
        ),
{
    doc.add_u64(FieldHandle::from_field_id(field), value)
}

/// A time stamp as the number that the index sorts by. Times before the epoch
/// come out as the largest numbers.
pub open spec fn date_value(server_ts: i64) -> u64 {
    (if server_ts >= 0 {
        server_ts as int
    } else {
        server_ts + 0x1_0000_0000_0000_0000
    }) as u64
}

/// What the index stores of an event.
pub open spec fn event_values(event: Event) -> Seq<(u32, FieldValue)> {
    seq![
        (Field::of_event(event.event_type).id(), FieldValue::Text(event.content_value@)),
        (Field::EventId.id(), FieldValue::Text(event.event_id@)),
        (Field::RoomId.id(), FieldValue::Text(event.room_id@)),
        (Field::Sender.id(), FieldValue::Text(event.sender@)),
        (Field::Date.id(), FieldValue::Number(date_value(event.server_ts))),
    ]
}

/// Whether some values hold a token of a field that takes each value as a
/// single token.
pub open spec fn holds(values: Seq<(u32, FieldValue)>, term: TermView) -> bool {
    values.contains((term.field.id(), FieldValue::Text(term.text)))
}

/// Of an event, the room and the id are found under their own fields alone.
pub proof fn lemma_event_holds(event: Event, term: TermView)
    requires
        term.field == Field::RoomId || term.field == Field::EventId,
    ensures
        holds(event_values(event), term) <==> term.text == if term.field == Field::RoomId {
            event.room_id@
        } else {
            event.event_id@
        },
{
    let values = event_values(event);
    assert(values[1] == (Field::EventId.id(), FieldValue::Text(event.event_id@)));
    assert(values[2] == (Field::RoomId.id(), FieldValue::Text(event.room_id@)));
    if holds(values, term) {
        let i = choose|i: int|
            0 <= i < values.len() && values[i] == (term.field.id(), FieldValue::Text(term.text));
        assert(values[i].0 == term.field.id());
    }
}

proof fn lemma_prefix_fits(values: Seq<(u32, FieldValue)>, n: int)
    requires
        0 <= n <= values.len(),
    ensures
        values_size(values.take(n)) <= values_size(values),
    decreases values.len() - n,
{
    if n < values.len() {
        lemma_prefix_fits(values, n + 1);
        assert(values.take(n + 1).drop_last() =~= values.take(n));
    } else {
        assert(values.take(n) =~= values);
    }
}

/// The document that the index stores for an event. The values are found
/// again by addresses of 32 bits, so nothing is said of an event whose texts
/// take more than four gigabytes.
pub fn event_document(event: &Event) -> (doc: TantivyDocument)
    ensures
        values_fit(event_values(*event)) ==> document_values(doc) == event_values(*event),
{
    let ghost all = event_values(*event);
    let mut doc = new_document();
    proof {
        lemma_prefix_fits(all, 1);
        lemma_prefix_fits(all, 2);
        lemma_prefix_fits(all, 3);
        lemma_prefix_fits(all, 4);
        lemma_prefix_fits(all, 5);
        assert(Seq::<(u32, FieldValue)>::empty().push(all[0]) =~= all.take(1));
        assert(all.take(1).push(all[1]) =~= all.take(2));
        assert(all.take(2).push(all[2]) =~= all.take(3));
        assert(all.take(3).push(all[3]) =~= all.take(4));
        assert(all.take(4).push(all[4]) =~= all.take(5));
        assert(all.take(5) =~= all);
    }
    add_text(&mut doc, Field::of_event(event.event_type).id(), event.content_value.as_str());
    assert(values_fit(all) ==> document_values(doc) =~= all.take(1));
    add_text(&mut doc, Field::EventId.id(), event.event_id.as_str());
    assert(values_fit(all) ==> document_values(doc) =~= all.take(2));
    add_text(&mut doc, Field::RoomId.id(), event.room_id.as_str());
    assert(values_fit(all) ==> document_values(doc) =~= all.take(3));
    add_text(&mut doc, Field::Sender.id(), event.sender.as_str());
    assert(values_fit(all) ==> document_values(doc) =~= all.take(4));
    let ts = event.server_ts;
    let date: u64 = #[verifier::truncate] (ts as u64);
    assert(ts >= 0 ==> ts as u64 == ts) by (bit_vector);
    assert(ts < 0 ==> ts as u64 == ts + 0x1_0000_0000_0000_0000) by (bit_vector);
    add_u64(&mut doc, Field::Date.id(), date);
    assert(values_fit(all) ==> document_values(doc) =~= all.take(5));
    doc
}

/// A newer event sorts behind an older one, unless only the older one is from
/// before the epoch.
pub proof fn law_dates_sort_by_time(older: i64, newer: i64)
    requires
        older < newer,
        older >= 0 || newer < 0,
    ensures
        date_value(older) < date_value(newer),
{
}

/// The text of an event is stored in the field of its kind alone, and its id,
/// its room, its sender and its date each in their own field.
pub proof fn law_event_values(event: Event)
    ensures
        event_values(event).len() == 5,
        event_values(event).contains(
            (
                match event.event_type {
                    EventType::Message => 0,
                    EventType::Topic => 1,
                    EventType::Name => 2,
                },
                FieldValue::Text(event.content_value@),
            ),
        ),
        event_values(event).contains((3, FieldValue::Number(date_value(event.server_ts)))),
        event_values(event).contains((4, FieldValue::Text(event.sender@))),
        event_values(event).contains((5, FieldValue::Text(event.room_id@))),
        event_values(event).contains((6, FieldValue::Text(event.event_id@))),
{
    let values = event_values(event);
    assert(values[0].1 == FieldValue::Text(event.content_value@));
    assert(values[1] == (Field::EventId.id(), FieldValue::Text(event.event_id@)));
    assert(values[2] == (Field::RoomId.id(), FieldValue::Text(event.room_id@)));
    assert(values[3] == (Field::Sender.id(), FieldValue::Text(event.sender@)));
    assert(values[4].0 == Field::Date.id());
}

/// A date is the time stamp itself, from the epoch on, and the distance to the
/// epoch below the largest numbers before it.
pub proof fn law_dates(server_ts: i64)
    ensures
        server_ts >= 0 ==> date_value(server_ts) == server_ts,
        server_ts < 0 ==> date_value(server_ts) - server_ts == 0x1_0000_0000_0000_0000,
{
}

} // verus!
