//! The fields of the index.

use tantivy::schema::IndexRecordOption;
use tantivy::schema::Schema;
use tantivy::schema::SchemaBuilder;
use tantivy::schema::TextFieldIndexing;
use tantivy::schema::TextOptions;
use tantivy::schema::FAST;
use tantivy::schema::STORED;
use tantivy::schema::STRING;
use vstd::prelude::*;

use crate::config::law_tokenizer_name_tells_analysis;
use crate::config::Config;
use crate::events::EventType;

verus! {

/// The fields of the index, in the order in which they are declared.
#[derive(Clone, Copy, Debug, PartialEq, Eq, Structural)]
pub enum Field {
    Body,
    Topic,
    Name,
    Date,
    Sender,
    RoomId,
    EventId,
}

impl Field {
    pub open spec fn spec_id(self) -> u32 {
        match self {
            Field::Body => 0,
            Field::Topic => 1,
            Field::Name => 2,
            Field::Date => 3,
            Field::Sender => 4,
            Field::RoomId => 5,
            Field::EventId => 6,
        }
    }

    /// The number of the field in the schema.
    #[verifier::when_used_as_spec(spec_id)]
    pub fn id(self) -> (id: u32)
        ensures
            id == self.spec_id(),
    {
        match self {
            Field::Body => 0,
            Field::Topic => 1,
            Field::Name => 2,
            Field::Date => 3,
            Field::Sender => 4,
            Field::RoomId => 5,
            Field::EventId => 6,
        }
    }

    pub open spec fn spec_name(self) -> Seq<char> {
        match self {
            Field::Body => "body"@,
            Field::Topic => "topic"@,
            Field::Name => "name"@,
            Field::Date => "date"@,
            Field::Sender => "sender"@,
            Field::RoomId => "room_id"@,
            Field::EventId => "event_id"@,
        }
    }

    /// The name of the field in the schema.
    pub fn name(self) -> (name: &'static str)
        ensures
            name@ == self.spec_name(),
    {
        match self {
            Field::Body => "body",
            Field::Topic => "topic",
            Field::Name => "name",
            Field::Date => "date",
            Field::Sender => "sender",
            Field::RoomId => "room_id",
            Field::EventId => "event_id",
        }
    }

    pub open spec fn spec_of_event(event_type: EventType) -> Field {
        match event_type {
            EventType::Message => Field::Body,
            EventType::Topic => Field::Topic,
            EventType::Name => Field::Name,
        }
    }

    /// The field that holds the text of an event.
    #[verifier::when_used_as_spec(spec_of_event)]
    pub fn of_event(event_type: EventType) -> (field: Field)
        ensures
            field == Field::spec_of_event(event_type),
    {
        match event_type {
            EventType::Message => Field::Body,
            EventType::Topic => Field::Topic,
            EventType::Name => Field::Name,
        }
    }
}

/// What the index does with the values of a text field.
pub enum TextKind<'a> {
    /// Cuts them into tokens with the tokenizer of this name, and keeps the
    /// positions of the tokens.
    Analyzed(&'a str),
    /// Takes each as a single token.
    Exact,
    /// Takes each as a single token, and keeps it to be read again.
    StoredExact,
}

/// What the index does with the values of a field.
pub enum FieldKind {
    /// Cuts them into tokens with the tokenizer of this name, and keeps the
    /// positions of the tokens.
    Analyzed(Seq<char>),
    /// Takes each as a single token.
    Exact,
    /// Takes each as a single token, and keeps it to be read again.
    StoredExact,
    /// Sorts by them: they are numbers.
    FastNumber,
}

impl<'a> View for TextKind<'a> {
    type V = FieldKind;

    open spec fn view(&self) -> FieldKind {
        match self {
            TextKind::Analyzed(tokenizer) => FieldKind::Analyzed(tokenizer@),
            TextKind::Exact => FieldKind::Exact,
            TextKind::StoredExact => FieldKind::StoredExact,
        }
    }
}

/// A field of a schema.
pub struct FieldEntry {
    pub name: Seq<char>,
    pub kind: FieldKind,
}

/// `tantivy::schema::SchemaBuilder`, the fields of a schema in the making.
#[verifier::external_type_specification]
#[verifier::external_body]
pub struct ExSchemaBuilder(SchemaBuilder);

/// `tantivy::schema::Schema`, the fields of an index.
#[verifier::external_type_specification]
#[verifier::external_body]
pub struct ExSchema(Schema);

/// The fields that a schema builder holds so far.
pub uninterp spec fn builder_fields(builder: SchemaBuilder) -> Seq<FieldEntry>;

/// The fields that a schema holds.
pub uninterp spec fn schema_fields(schema: Schema) -> Seq<FieldEntry>;

/// Whether no field has this name yet.
pub open spec fn name_is_free(fields: Seq<FieldEntry>, name: Seq<char>) -> bool {
    forall|i: int| 0 <= i < fields.len() ==> (#[trigger] fields[i]).name != name
}

/// Whether a field can have this name: it is not empty, and does not start
/// with a dash.
pub open spec fn name_is_valid(name: Seq<char>) -> bool {
    name.len() > 0 && name[0] != '-'
}

/// `Schema::builder` starts without any fields.
#[verifier::external_body]
fn new_schema() -> (builder: SchemaBuilder)
    ensures
        builder_fields(builder) == Seq::<FieldEntry>::empty(),
{
    Schema::builder()
}

/// `SchemaBuilder::add_text_field` adds a text field behind the others, and
/// tells its number. It panics if the name is taken or not valid.
#[verifier::external_body]
fn add_text_field(builder: &mut SchemaBuilder, name: &str, kind: TextKind) -> (id: u32)
    requires
        name_is_valid(name@),
        name_is_free(builder_fields(*old(builder)), name@),
        builder_fields(*old(builder)).len() < u32::MAX,
    ensures
        builder_fields(*final(builder)) == builder_fields(*old(builder)).push(
            FieldEntry { name: name@, kind: kind@ },
        ),
        id == builder_fields(*old(builder)).len(),
{
    let options = match kind {
        TextKind::Analyzed(tokenizer) => TextOptions::default().set_indexing_options(
            TextFieldIndexing::default()
                .set_tokenizer(tokenizer)
                .set_index_option(IndexRecordOption::WithFreqsAndPositions),
        ),
        TextKind::Exact => STRING,
        TextKind::StoredExact => STORED | STRING,
    };
    builder.add_text_field(name, options).field_id()
}

/// `SchemaBuilder::add_u64_field` adds a number field to sort by behind the
/// others, and tells its number. It panics if the name is taken or not valid.
#[verifier::external_body]
fn add_u64_field(builder: &mut SchemaBuilder, name: &str) -> (id: u32)
    requires
        name_is_valid(name@),
        name_is_free(builder_fields(*old(builder)), name@),
        builder_fields(*old(builder)).len() < u32::MAX,
    ensures
        builder_fields(*final(builder)) == builder_fields(*old(builder)).push(
            FieldEntry { name: name@, kind: FieldKind::FastNumber },
        ),
        id == builder_fields(*old(builder)).len(),
{
    builder.add_u64_field(name, FAST).field_id()
}

/// `SchemaBuilder::build` makes a schema of the fields.
#[verifier::external_body]
fn finish_schema(builder: SchemaBuilder) -> (schema: Schema)
    ensures
        schema_fields(schema) == builder_fields(builder),
{
    builder.build()
}

/// The fields of an index whose text is cut by the tokenizer of this name.
pub open spec fn index_fields(tokenizer: Seq<char>) -> Seq<FieldEntry> {
    seq![
        FieldEntry { name: Field::Body.spec_name(), kind: FieldKind::Analyzed(tokenizer) },
        FieldEntry { name: Field::Topic.spec_name(), kind: FieldKind::Analyzed(tokenizer) },
        FieldEntry { name: Field::Name.spec_name(), kind: FieldKind::Analyzed(tokenizer) },
        FieldEntry { name: Field::Date.spec_name(), kind: FieldKind::FastNumber },
        FieldEntry { name: Field::Sender.spec_name(), kind: FieldKind::Exact },
        FieldEntry { name: Field::RoomId.spec_name(), kind: FieldKind::StoredExact },
        FieldEntry { name: Field::EventId.spec_name(), kind: FieldKind::StoredExact },
    ]
}

/// Two fields with one name are the same, and all names are valid.
pub proof fn lemma_field_names(a: Field, b: Field)
    ensures
        a.spec_name() == b.spec_name() ==> a == b,
        name_is_valid(a.spec_name()),
{
    reveal_strlit("body");
    reveal_strlit("topic");
    reveal_strlit("name");
    reveal_strlit("date");
    reveal_strlit("sender");
    reveal_strlit("room_id");
    reveal_strlit("event_id");
    if a.spec_name() == b.spec_name() {
        assert(a.spec_name()[0] == b.spec_name()[0]);
        assert(a.spec_name().len() == b.spec_name().len());
    }
}

/// The schema of an index whose text is cut by the tokenizer of this name.
pub fn build_schema(tokenizer: &str) -> (schema: Schema)
    ensures
        schema_fields(schema) == index_fields(tokenizer@),
{
    proof {
        assert forall|a: Field, b: Field| #[trigger] a.spec_name() == #[trigger] b.spec_name()
            implies a == b by {
            lemma_field_names(a, b);
        }
        assert forall|a: Field| name_is_valid(#[trigger] a.spec_name()) by {
            lemma_field_names(a, a);
        }
    }
    let mut builder = new_schema();
    let body = add_text_field(&mut builder, Field::Body.name(), TextKind::Analyzed(tokenizer));
    let topic = add_text_field(&mut builder, Field::Topic.name(), TextKind::Analyzed(tokenizer));
    let name = add_text_field(&mut builder, Field::Name.name(), TextKind::Analyzed(tokenizer));
    let date = add_u64_field(&mut builder, Field::Date.name());
    let sender = add_text_field(&mut builder, Field::Sender.name(), TextKind::Exact);
    let room_id = add_text_field(&mut builder, Field::RoomId.name(), TextKind::StoredExact);
    let event_id = add_text_field(&mut builder, Field::EventId.name(), TextKind::StoredExact);
    assert(body == Field::Body.id() && topic == Field::Topic.id() && name == Field::Name.id());
    assert(date == Field::Date.id() && sender == Field::Sender.id());
    assert(room_id == Field::RoomId.id() && event_id == Field::EventId.id());
    assert(builder_fields(builder) =~= index_fields(tokenizer@));
    finish_schema(builder)
}

/// A field is found in the schema under its own number.
pub proof fn law_field_ids(tokenizer: Seq<char>, field: Field)
    ensures
        field.id() < index_fields(tokenizer).len(),
        index_fields(tokenizer)[field.id() as int].name == field.spec_name(),
{
}

/// Two indexes have the same schema if and only if they treat text alike. So
/// an index cannot be opened by mistake with settings that would no longer
/// find its tokens.
pub proof fn law_schema_tells_analysis(config: Config, other: Config)
    ensures
        index_fields(config.tokenizer_mode.tokenizer_name(config.language)) == index_fields(
            other.tokenizer_mode.tokenizer_name(other.language),
        ) <==> config.tokenizer_mode.text_analysis(config.language)
            == other.tokenizer_mode.text_analysis(other.language),
{
    law_tokenizer_name_tells_analysis(
        config.tokenizer_mode,
        config.language,
        other.tokenizer_mode,
        other.language,
    );
    let a = index_fields(config.tokenizer_mode.tokenizer_name(config.language));
    let b = index_fields(other.tokenizer_mode.tokenizer_name(other.language));
    if a == b {
        assert(a[0].kind == b[0].kind);
    }
}

/// The fields of an index: the text of messages, topics and names is cut into
/// tokens by the tokenizer of the index, dates are numbers to sort by, and ids
/// are single tokens. Those of rooms and events can be read again.
pub proof fn law_index_fields(tokenizer: Seq<char>)
    ensures
        index_fields(tokenizer).len() == 7,
        index_fields(tokenizer)[0].name == "body"@,
        index_fields(tokenizer)[0].kind == FieldKind::Analyzed(tokenizer),
        index_fields(tokenizer)[1].name == "topic"@,
        index_fields(tokenizer)[1].kind == FieldKind::Analyzed(tokenizer),
        index_fields(tokenizer)[2].name == "name"@,
        index_fields(tokenizer)[2].kind == FieldKind::Analyzed(tokenizer),
        index_fields(tokenizer)[3].name == "date"@,
        index_fields(tokenizer)[3].kind == FieldKind::FastNumber,
        index_fields(tokenizer)[4].name == "sender"@,
        index_fields(tokenizer)[4].kind == FieldKind::Exact,
        index_fields(tokenizer)[5].name == "room_id"@,
        index_fields(tokenizer)[5].kind == FieldKind::StoredExact,
        index_fields(tokenizer)[6].name == "event_id"@,
        index_fields(tokenizer)[6].kind == FieldKind::StoredExact,
{
}

/// The text of an event of each kind has a field of its own.
pub proof fn law_fields_of_events()
    ensures
        Field::of_event(EventType::Message).spec_name() == "body"@,
        Field::of_event(EventType::Topic).spec_name() == "topic"@,
        Field::of_event(EventType::Name).spec_name() == "name"@,
        Field::of_event(EventType::Message).id() == 0,
        Field::of_event(EventType::Topic).id() == 1,
        Field::of_event(EventType::Name).id() == 2,
{
}

/// The numbers and the names of the fields.
pub proof fn law_fields()
    ensures
        Field::Body.id() == 0 && Field::Body.spec_name() == "body"@,
        Field::Topic.id() == 1 && Field::Topic.spec_name() == "topic"@,
        Field::Name.id() == 2 && Field::Name.spec_name() == "name"@,
        Field::Date.id() == 3 && Field::Date.spec_name() == "date"@,
        Field::Sender.id() == 4 && Field::Sender.spec_name() == "sender"@,
        Field::RoomId.id() == 5 && Field::RoomId.spec_name() == "room_id"@,
        Field::EventId.id() == 6 && Field::EventId.spec_name() == "event_id"@,
{
}

} // verus!
