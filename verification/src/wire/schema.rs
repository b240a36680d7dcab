//! Schemas and single values as messages.

use crate::types::{metadata_views, MetadataEntry, MetadataView};
use crate::wire::fields::{
    all_sound, message_bytes, message_reads_back, parse_message, parsed, payload_is_shorter,
    raw_views, short_is_writable, FieldValue, RawField, RawView, ValueView,
};
use crate::wire::slots::{
    all_passable, fixed, fixed_in, flag_slot, group_slots, message_field, number, number_in,
    number_slot, one_more, passable, push_flag, push_message, push_number, push_text,
    push_text_slot, text, text_field, text_field_reads_back, text_in, text_slot, with_tag,
    with_tag_of_tagged,
};
use vstd::prelude::*;

verus! {

// ---- numbers with a sign

/// The signed number with the bits of an unsigned one.
pub open spec fn signed(bits: u64) -> i64 {
    if bits >= 0x8000_0000_0000_0000 {
        (bits - 0x1_0000_0000_0000_0000) as i64
    } else {
        bits as i64
    }
}

/// The bits of a signed number.
pub open spec fn unsigned(value: i64) -> u64 {
    if value < 0 {
        (value + 0x1_0000_0000_0000_0000) as u64
    } else {
        value as u64
    }
}

/// The code with the lower half of some bits.
pub open spec fn code(bits: u64) -> i32 {
    let low = bits as int % 0x1_0000_0000;
    if low >= 0x8000_0000 {
        (low - 0x1_0000_0000) as i32
    } else {
        low as i32
    }
}

pub fn to_signed(bits: u64) -> (r: i64)
    ensures
        r == signed(bits),
{
    if bits >= 0x8000_0000_0000_0000 {
        (bits as i128 - 0x1_0000_0000_0000_0000i128) as i64
    } else {
        bits as i64
    }
}

pub fn to_unsigned(value: i64) -> (r: u64)
    ensures
        r == unsigned(value),
{
    if value < 0 {
        (value as i128 + 0x1_0000_0000_0000_0000i128) as u64
    } else {
        value as u64
    }
}

pub fn to_code(bits: u64) -> (r: i32)
    ensures
        r == code(bits),
{
    let low: i64 = (bits % 0x1_0000_0000) as i64;
    if low >= 0x8000_0000 {
        (low - 0x1_0000_0000) as i32
    } else {
        low as i32
    }
}

/// Signs survive the way there and back.
pub broadcast proof fn signed_inverts_unsigned(value: i64)
    ensures
        signed(#[trigger] unsigned(value)) == value,
{
}

pub broadcast proof fn code_inverts_unsigned(value: i32)
    ensures
        code(#[trigger] unsigned(value as i64)) == value,
{
}

// ---- metadata

/// The entry that a message holds.
pub open spec fn entry_of(fields: Seq<RawView>, depth: nat) -> Option<MetadataView> {
    if !passable(fields, 1, 2, depth) {
        None
    } else {
        match (text(with_tag(fields, 1)), text(with_tag(fields, 2))) {
            (Some(key), Some(value)) => Some(MetadataView { key, value }),
            _ => None,
        }
    }
}

/// The entries that the occurrences of a field hold.
pub open spec fn entries_of(occurrences: Seq<RawView>, depth: nat) -> Option<Seq<MetadataView>>
    decreases occurrences.len(),
{
    if occurrences.len() == 0 {
        Some(Seq::empty())
    } else if depth == 0 {
        None
    } else {
        match (entries_of(occurrences.drop_last(), depth), occurrences.last().value) {
            (Some(earlier), ValueView::Bytes(bytes)) => match parsed(bytes, (depth - 1) as nat) {
                None => None,
                Some(fields) => match entry_of(fields, (depth - 1) as nat) {
                    None => None,
                    Some(entry) => Some(earlier.push(entry)),
                },
            },
            _ => None,
        }
    }
}

/// The message of an entry.
pub open spec fn entry_fields(entry: MetadataView) -> Seq<RawView> {
    text_slot(1, entry.key) + text_slot(2, entry.value)
}

/// Entries, each in a field of its own.
pub open spec fn entries_slot(tag: u32, entries: Seq<MetadataView>) -> Seq<RawView> {
    Seq::new(entries.len(), |i: int| message_field(tag, entry_fields(entries[i])))
}

pub broadcast proof fn with_tag_of_entries_slot(own: u32, entries: Seq<MetadataView>, tag: u32)
    ensures
        #[trigger] with_tag(entries_slot(own, entries), tag) == if own == tag {
            entries_slot(own, entries)
        } else {
            Seq::empty()
        },
{
    with_tag_of_tagged(entries_slot(own, entries), own, tag);
}

proof fn entries_stay_bad(occurrences: Seq<RawView>, more: Seq<RawView>, depth: nat)
    requires
        entries_of(occurrences, depth) is None,
    ensures
        entries_of(occurrences + more, depth) is None,
    decreases more.len(),
{
    if more.len() > 0 {
        entries_stay_bad(occurrences, more.drop_last(), depth);
        assert((occurrences + more).drop_last() =~= occurrences + more.drop_last());
    } else {
        assert(occurrences + more =~= occurrences);
    }
}

/// An entry that was written reads back.
pub proof fn entry_reads_back(entry: MetadataView, depth: nat)
    ensures
        entry_of(entry_fields(entry), depth) == Some(entry),
        all_sound(entry_fields(entry)),
{
    broadcast use group_slots;

    let fields = entry_fields(entry);
    assert(with_tag(fields, 1) =~= text_slot(1, entry.key));
    assert(with_tag(fields, 2) =~= text_slot(2, entry.value));
}

/// Entries that were written read back.
pub proof fn entries_read_back(tag: u32, entries: Seq<MetadataView>, depth: nat)
    requires
        depth > 0,
        message_bytes(entries_slot(tag, entries)).len() <= u64::MAX,
    ensures
        entries_of(entries_slot(tag, entries), depth) == Some(entries),
    decreases entries.len(),
{
    let occurrences = entries_slot(tag, entries);
    if entries.len() > 0 {
        reveal(message_bytes);
        assert(occurrences.drop_last() =~= entries_slot(tag, entries.drop_last()));
        entries_read_back(tag, entries.drop_last(), depth);
        let fields = entry_fields(entries.last());
        entry_reads_back(entries.last(), (depth - 1) as nat);
        payload_is_shorter(occurrences, occurrences.len() - 1);
        short_is_writable(fields);
        message_reads_back(fields, (depth - 1) as nat);
        assert(entries.drop_last().push(entries.last()) =~= entries);
    } else {
        assert(entries =~= Seq::empty());
    }
}

fn read_entry(fields: &Vec<RawField>, depth: u32) -> (r: Option<MetadataEntry>)
    ensures
        match r {
            Some(entry) => entry_of(raw_views(fields@), depth as nat) == Some(entry@),
            None => entry_of(raw_views(fields@), depth as nat) is None,
        },
{
    let to: usize = fields.len();
    proof {
        assert(raw_views(fields@).subrange(0, to as int) =~= raw_views(fields@));
    }
    if !all_passable(fields, 1, 2, depth) {
        return None;
    }
    match (text_in(fields, 0, to, 1), text_in(fields, 0, to, 2)) {
        (Some(key), Some(value)) => Some(MetadataEntry { key, value }),
        _ => None,
    }
}

/// The entries in a message.
pub fn read_entries(fields: &Vec<RawField>, tag: u32, depth: u32) -> (r: Option<
    Vec<MetadataEntry>,
>)
    ensures
        match r {
            Some(entries) => entries_of(with_tag(raw_views(fields@), tag), depth as nat) == Some(
                metadata_views(entries@),
            ),
            None => entries_of(with_tag(raw_views(fields@), tag), depth as nat) is None,
        },
{
    let ghost views = raw_views(fields@);
    let mut entries: Vec<MetadataEntry> = Vec::new();
    let to: usize = fields.len();
    proof {
        assert(views.subrange(0, 0) =~= Seq::empty());
        reveal(with_tag);
        assert(views.subrange(0, to as int) =~= views);
        assert(metadata_views(entries@) =~= Seq::empty());
    }
    for i in 0..to
        invariant
            to == fields.len(),
            views == raw_views(fields@),
            views.subrange(0, to as int) == views,
            entries_of(with_tag(views.subrange(0, i as int), tag), depth as nat) == Some(
                metadata_views(entries@),
            ),
    {
        let ghost part = with_tag(views.subrange(0, i + 1), tag);
        proof {
            one_more(views, 0, i as int, tag);
            crate::wire::slots::occurrences_extend(views, 0, i + 1, to as int, tag);
            if entries_of(part, depth as nat) is None {
                entries_stay_bad(
                    part,
                    with_tag(views.subrange(i + 1, to as int), tag),
                    depth as nat,
                );
            }
            assert(views[i as int] == fields@[i as int]@);
            let earlier = with_tag(views.subrange(0, i as int), tag);
            assert(earlier.push(views[i as int]).drop_last() =~= earlier);
        }
        if fields[i].tag == tag {
            if depth == 0 {
                return None;
            }
            let inner = match &fields[i].value {
                FieldValue::Bytes(bytes) => match parse_message(bytes, depth - 1) {
                    Some(inner) => inner,
                    None => return None,
                },
                _ => return None,
            };
            let ghost earlier = metadata_views(entries@);
            match read_entry(&inner, depth - 1) {
                Some(entry) => {
                    entries.push(entry);
                    proof {
                        assert(metadata_views(entries@) =~= earlier.push(entry@));
                    }
                },
                None => return None,
            }
        }
    }
    Some(entries)
}

/// Appends entries, each in a field of its own.
pub fn push_entries(fields: &mut Vec<RawField>, tag: u32, entries: &Vec<MetadataEntry>)
    ensures
        raw_views(final(fields)@) == raw_views(old(fields)@) + entries_slot(
            tag,
            metadata_views(entries@),
        ),
{
    let ghost earlier = raw_views(fields@);
    let ghost slot = entries_slot(tag, metadata_views(entries@));
    for i in 0..entries.len()
        invariant
            slot == entries_slot(tag, metadata_views(entries@)),
            raw_views(fields@) =~= earlier + slot.take(i as int),
    {
        let mut inner: Vec<RawField> = Vec::new();
        proof {
            assert(raw_views(inner@) =~= Seq::empty());
        }
        push_text_slot(&mut inner, 1, entries[i].key.as_str());
        push_text_slot(&mut inner, 2, entries[i].value.as_str());
        proof {
            assert(raw_views(inner@) =~= entry_fields(entries@[i as int]@));
            entry_reads_back(entries@[i as int]@, 0);
        }
        push_message(fields, tag, &inner);
    }
    proof {
        assert(slot.take(entries.len() as int) =~= slot);
    }
}

// ---- fields and schemas

/// A field of a schema, its type as a code.
pub struct WireField {
    pub name: String,
    pub data_type: i32,
    pub nullable: bool,
    pub metadata: Vec<MetadataEntry>,
}

pub struct WireFieldView {
    pub name: Seq<char>,
    pub data_type: i32,
    pub nullable: bool,
    pub metadata: Seq<MetadataView>,
}

impl View for WireField {
    type V = WireFieldView;

    open spec fn view(&self) -> WireFieldView {
        WireFieldView {
            name: self.name@,
            data_type: self.data_type,
            nullable: self.nullable,
            metadata: metadata_views(self.metadata@),
        }
    }
}

pub open spec fn wire_field_views(fields: Seq<WireField>) -> Seq<WireFieldView> {
    Seq::new(fields.len(), |i: int| fields[i]@)
}

/// A schema.
pub struct WireSchema {
    pub fields: Vec<WireField>,
    pub metadata: Vec<MetadataEntry>,
}

pub struct WireSchemaView {
    pub fields: Seq<WireFieldView>,
    pub metadata: Seq<MetadataView>,
}

impl View for WireSchema {
    type V = WireSchemaView;

    open spec fn view(&self) -> WireSchemaView {
        WireSchemaView {
            fields: wire_field_views(self.fields@),
            metadata: metadata_views(self.metadata@),
        }
    }
}

pub open spec fn field_of(fields: Seq<RawView>, depth: nat) -> Option<WireFieldView> {
    if !passable(fields, 1, 4, depth) {
        None
    } else {
        match (
            text(with_tag(fields, 1)),
            number(with_tag(fields, 2)),
            number(with_tag(fields, 3)),
            entries_of(with_tag(fields, 4), depth),
        ) {
            (Some(name), Some(data_type), Some(nullable), Some(metadata)) => Some(
                WireFieldView {
                    name,
                    data_type: code(data_type),
                    nullable: nullable != 0,
                    metadata,
                },
            ),
            _ => None,
        }
    }
}

pub open spec fn fields_of(occurrences: Seq<RawView>, depth: nat) -> Option<Seq<WireFieldView>>
    decreases occurrences.len(),
{
    if occurrences.len() == 0 {
        Some(Seq::empty())
    } else if depth == 0 {
        None
    } else {
        match (fields_of(occurrences.drop_last(), depth), occurrences.last().value) {
            (Some(earlier), ValueView::Bytes(bytes)) => match parsed(bytes, (depth - 1) as nat) {
                None => None,
                Some(fields) => match field_of(fields, (depth - 1) as nat) {
                    None => None,
                    Some(field) => Some(earlier.push(field)),
                },
            },
            _ => None,
        }
    }
}

pub open spec fn schema_of(fields: Seq<RawView>, depth: nat) -> Option<WireSchemaView> {
    if !passable(fields, 1, 2, depth) {
        None
    } else {
        match (fields_of(with_tag(fields, 1), depth), entries_of(with_tag(fields, 2), depth)) {
            (Some(fields), Some(metadata)) => Some(WireSchemaView { fields, metadata }),
            _ => None,
        }
    }
}

pub open spec fn field_fields(field: WireFieldView) -> Seq<RawView> {
    text_slot(1, field.name) + number_slot(2, unsigned(field.data_type as i64)) + flag_slot(
        3,
        field.nullable,
    ) + entries_slot(4, field.metadata)
}

pub open spec fn fields_slot(tag: u32, fields: Seq<WireFieldView>) -> Seq<RawView> {
    Seq::new(fields.len(), |i: int| message_field(tag, field_fields(fields[i])))
}

pub broadcast proof fn with_tag_of_fields_slot(own: u32, fields: Seq<WireFieldView>, tag: u32)
    ensures
        #[trigger] with_tag(fields_slot(own, fields), tag) == if own == tag {
            fields_slot(own, fields)
        } else {
            Seq::empty()
        },
{
    with_tag_of_tagged(fields_slot(own, fields), own, tag);
}

pub open spec fn schema_fields(schema: WireSchemaView) -> Seq<RawView> {
    fields_slot(1, schema.fields) + entries_slot(2, schema.metadata)
}

proof fn fields_stay_bad(occurrences: Seq<RawView>, more: Seq<RawView>, depth: nat)
    requires
        fields_of(occurrences, depth) is None,
    ensures
        fields_of(occurrences + more, depth) is None,
    decreases more.len(),
{
    if more.len() > 0 {
        fields_stay_bad(occurrences, more.drop_last(), depth);
        assert((occurrences + more).drop_last() =~= occurrences + more.drop_last());
    } else {
        assert(occurrences + more =~= occurrences);
    }
}

/// Parts of a message are no longer than the whole.
pub proof fn part_is_shorter(whole: Seq<RawView>, before: Seq<RawView>, part: Seq<RawView>, behind: Seq<RawView>)
    requires
        whole == before + part + behind,
    ensures
        message_bytes(part).len() <= message_bytes(whole).len(),
{
    crate::wire::fields::message_bytes_of_concatenation(before + part, behind);
    crate::wire::fields::message_bytes_of_concatenation(before, part);
}

/// A field that was written reads back.
pub proof fn field_reads_back(field: WireFieldView, depth: nat)
    requires
        depth > 0,
        message_bytes(field_fields(field)).len() <= u64::MAX,
    ensures
        field_of(field_fields(field), depth) == Some(field),
        all_sound(field_fields(field)),
{
    broadcast use {group_slots, with_tag_of_entries_slot, code_inverts_unsigned};

    let fields = field_fields(field);
    let metadata = entries_slot(4, field.metadata);
    assert(with_tag(fields, 1) =~= text_slot(1, field.name));
    assert(with_tag(fields, 2) =~= number_slot(2, unsigned(field.data_type as i64)));
    assert(with_tag(fields, 3) =~= flag_slot(3, field.nullable));
    assert(with_tag(fields, 4) =~= metadata);
    let before = text_slot(1, field.name) + number_slot(2, unsigned(field.data_type as i64))
        + flag_slot(3, field.nullable);
    assert(fields =~= before + metadata + Seq::empty());
    part_is_shorter(fields, before, metadata, Seq::empty());
    entries_read_back(4, field.metadata, depth);
}

/// Fields that were written read back.
pub proof fn fields_read_back(tag: u32, fields: Seq<WireFieldView>, depth: nat)
    requires
        depth > 1,
        message_bytes(fields_slot(tag, fields)).len() <= u64::MAX,
    ensures
        fields_of(fields_slot(tag, fields), depth) == Some(fields),
    decreases fields.len(),
{
    let occurrences = fields_slot(tag, fields);
    if fields.len() > 0 {
        reveal(message_bytes);
        assert(occurrences.drop_last() =~= fields_slot(tag, fields.drop_last()));
        fields_read_back(tag, fields.drop_last(), depth);
        let inner = field_fields(fields.last());
        payload_is_shorter(occurrences, occurrences.len() - 1);
        field_reads_back(fields.last(), (depth - 1) as nat);
        short_is_writable(inner);
        message_reads_back(inner, (depth - 1) as nat);
        assert(fields.drop_last().push(fields.last()) =~= fields);
    } else {
        assert(fields =~= Seq::empty());
    }
}

/// A schema that was written reads back.
pub proof fn schema_reads_back(schema: WireSchemaView, depth: nat)
    requires
        depth > 1,
        message_bytes(schema_fields(schema)).len() <= u64::MAX,
    ensures
        schema_of(schema_fields(schema), depth) == Some(schema),
        all_sound(schema_fields(schema)),
{
    broadcast use {group_slots, with_tag_of_entries_slot, with_tag_of_fields_slot};

    let whole = schema_fields(schema);
    let fields = fields_slot(1, schema.fields);
    let metadata = entries_slot(2, schema.metadata);
    assert(with_tag(whole, 1) =~= fields);
    assert(with_tag(whole, 2) =~= metadata);
    assert(whole =~= Seq::empty() + fields + metadata);
    part_is_shorter(whole, Seq::empty(), fields, metadata);
    assert(whole =~= fields + metadata + Seq::empty());
    part_is_shorter(whole, fields, metadata, Seq::empty());
    fields_read_back(1, schema.fields, depth);
    entries_read_back(2, schema.metadata, depth);
}

fn read_field_message(fields: &Vec<RawField>, depth: u32) -> (r: Option<WireField>)
    ensures
        match r {
            Some(field) => field_of(raw_views(fields@), depth as nat) == Some(field@),
            None => field_of(raw_views(fields@), depth as nat) is None,
        },
{
    let to: usize = fields.len();
    proof {
        assert(raw_views(fields@).subrange(0, to as int) =~= raw_views(fields@));
    }
    if !all_passable(fields, 1, 4, depth) {
        return None;
    }
    match (
        text_in(fields, 0, to, 1),
        number_in(fields, 0, to, 2),
        number_in(fields, 0, to, 3),
        read_entries(fields, 4, depth),
    ) {
        (Some(name), Some(data_type), Some(nullable), Some(metadata)) => Some(
            WireField {
                name,
                data_type: to_code(data_type),
                nullable: nullable != 0,
                metadata,
            },
        ),
        _ => None,
    }
}

fn read_fields(fields: &Vec<RawField>, tag: u32, depth: u32) -> (r: Option<Vec<WireField>>)
    ensures
        match r {
            Some(list) => fields_of(with_tag(raw_views(fields@), tag), depth as nat) == Some(
                wire_field_views(list@),
            ),
            None => fields_of(with_tag(raw_views(fields@), tag), depth as nat) is None,
        },
{
    let ghost views = raw_views(fields@);
    let mut list: Vec<WireField> = Vec::new();
    let to: usize = fields.len();
    proof {
        assert(views.subrange(0, 0) =~= Seq::empty());
        reveal(with_tag);
        assert(views.subrange(0, to as int) =~= views);
        assert(wire_field_views(list@) =~= Seq::empty());
    }
    for i in 0..to
        invariant
            to == fields.len(),
            views == raw_views(fields@),
            views.subrange(0, to as int) == views,
            fields_of(with_tag(views.subrange(0, i as int), tag), depth as nat) == Some(
                wire_field_views(list@),
            ),
    {
        let ghost part = with_tag(views.subrange(0, i + 1), tag);
        proof {
            one_more(views, 0, i as int, tag);
            crate::wire::slots::occurrences_extend(views, 0, i + 1, to as int, tag);
            if fields_of(part, depth as nat) is None {
                fields_stay_bad(
                    part,
                    with_tag(views.subrange(i + 1, to as int), tag),
                    depth as nat,
                );
            }
            assert(views[i as int] == fields@[i as int]@);
            let earlier = with_tag(views.subrange(0, i as int), tag);
            assert(earlier.push(views[i as int]).drop_last() =~= earlier);
        }
        if fields[i].tag == tag {
            if depth == 0 {
                return None;
            }
            let inner = match &fields[i].value {
                FieldValue::Bytes(bytes) => match parse_message(bytes, depth - 1) {
                    Some(inner) => inner,
                    None => return None,
                },
                _ => return None,
            };
            let ghost earlier = wire_field_views(list@);
            match read_field_message(&inner, depth - 1) {
                Some(field) => {
                    list.push(field);
                    proof {
                        assert(wire_field_views(list@) =~= earlier.push(field@));
                    }
                },
                None => return None,
            }
        }
    }
    Some(list)
}

/// The schema that a message holds.
pub fn read_schema(fields: &Vec<RawField>, depth: u32) -> (r: Option<WireSchema>)
    ensures
        match r {
            Some(schema) => schema_of(raw_views(fields@), depth as nat) == Some(schema@),
            None => schema_of(raw_views(fields@), depth as nat) is None,
        },
{
    if !all_passable(fields, 1, 2, depth) {
        return None;
    }
    match (read_fields(fields, 1, depth), read_entries(fields, 2, depth)) {
        (Some(list), Some(metadata)) => Some(WireSchema { fields: list, metadata }),
        _ => None,
    }
}

/// The message of a schema.
pub fn write_schema(schema: &WireSchema) -> (r: Vec<RawField>)
    ensures
        raw_views(r@) == schema_fields(schema@),
        all_sound(raw_views(r@)),
{
    let mut fields: Vec<RawField> = Vec::new();
    let ghost slot = fields_slot(1, schema@.fields);
    for i in 0..schema.fields.len()
        invariant
            slot == fields_slot(1, schema@.fields),
            raw_views(fields@) =~= slot.take(i as int),
    {
        let field = &schema.fields[i];
        let mut inner: Vec<RawField> = Vec::new();
        proof {
            assert(raw_views(inner@) =~= Seq::empty());
        }
        push_text_slot(&mut inner, 1, field.name.as_str());
        push_number(&mut inner, 2, to_unsigned(field.data_type as i64));
        push_flag(&mut inner, 3, field.nullable);
        push_entries(&mut inner, 4, &field.metadata);
        proof {
            assert(raw_views(inner@) =~= field_fields(field@));
        }
        push_message(&mut fields, 1, &inner);
    }
    proof {
        assert(slot.take(schema.fields.len() as int) =~= slot);
    }
    push_entries(&mut fields, 2, &schema.metadata);
    fields
}

// ---- single values

/// A value of a message, or none.
pub enum WireValue {
    Missing,
    Null(bool),
    Boolean(bool),
    Int64(i64),
    UInt64(u64),
    Float64(u64),
    Utf8(String),
}

pub enum WireValueView {
    Missing,
    Null(bool),
    Boolean(bool),
    Int64(i64),
    UInt64(u64),
    Float64(u64),
    Utf8(Seq<char>),
}

impl View for WireValue {
    type V = WireValueView;

    open spec fn view(&self) -> WireValueView {
        match self {
            WireValue::Missing => WireValueView::Missing,
            WireValue::Null(b) => WireValueView::Null(*b),
            WireValue::Boolean(b) => WireValueView::Boolean(*b),
            WireValue::Int64(n) => WireValueView::Int64(*n),
            WireValue::UInt64(n) => WireValueView::UInt64(*n),
            WireValue::Float64(bits) => WireValueView::Float64(*bits),
            WireValue::Utf8(s) => WireValueView::Utf8(s@),
        }
    }
}

/// The value that occurrences of one alternative stand for.
pub open spec fn value_kind(run: Seq<RawView>, tag: u32) -> Option<WireValueView> {
    let occurrences = with_tag(run, tag);
    if tag == 1 {
        match number(occurrences) {
            Some(n) => Some(WireValueView::Null(n != 0)),
            None => None,
        }
    } else if tag == 2 {
        match number(occurrences) {
            Some(n) => Some(WireValueView::Boolean(n != 0)),
            None => None,
        }
    } else if tag == 3 {
        match number(occurrences) {
            Some(n) => Some(WireValueView::Int64(signed(n))),
            None => None,
        }
    } else if tag == 4 {
        match number(occurrences) {
            Some(n) => Some(WireValueView::UInt64(n)),
            None => None,
        }
    } else if tag == 5 {
        match fixed(occurrences) {
            Some(bits) => Some(WireValueView::Float64(bits)),
            None => None,
        }
    } else {
        match text(occurrences) {
            Some(s) => Some(WireValueView::Utf8(s)),
            None => None,
        }
    }
}

/// Where the last run of one alternative starts among the first `upto` fields, and its number.
/// Nothing where an earlier run is not sound.
pub open spec fn value_runs(fields: Seq<RawView>, upto: int) -> Option<Option<(int, u32)>>
    decreases upto,
{
    if upto <= 0 {
        Some(None)
    } else {
        let tag = fields[upto - 1].tag;
        match value_runs(fields, upto - 1) {
            None => None,
            Some(run) => if !(1 <= tag <= 6) || (run is Some && run->Some_0.1 == tag) {
                Some(run)
            } else if run is Some && value_kind(
                fields.subrange(run->Some_0.0, upto - 1),
                run->Some_0.1,
            ) is None {
                None
            } else {
                Some(Some((upto - 1, tag)))
            },
        }
    }
}

/// The value that a message holds.
pub open spec fn value_of(fields: Seq<RawView>, depth: nat) -> Option<WireValueView> {
    if !passable(fields, 1, 6, depth) {
        None
    } else {
        match value_runs(fields, fields.len() as int) {
            None => None,
            Some(None) => Some(WireValueView::Missing),
            Some(Some((from, tag))) => value_kind(
                fields.subrange(from, fields.len() as int),
                tag,
            ),
        }
    }
}

/// The message of a value.
pub open spec fn value_fields(value: WireValueView) -> Seq<RawView> {
    match value {
        WireValueView::Missing => Seq::empty(),
        WireValueView::Null(b) => seq![
            RawView {
                tag: 1,
                value: ValueView::Varint(
                    if b {
                        1
                    } else {
                        0
                    },
                ),
            },
        ],
        WireValueView::Boolean(b) => seq![
            RawView {
                tag: 2,
                value: ValueView::Varint(
                    if b {
                        1
                    } else {
                        0
                    },
                ),
            },
        ],
        WireValueView::Int64(n) => seq![
            RawView { tag: 3, value: ValueView::Varint(unsigned(n)) },
        ],
        WireValueView::UInt64(n) => seq![RawView { tag: 4, value: ValueView::Varint(n) }],
        WireValueView::Float64(bits) => seq![
            RawView { tag: 5, value: ValueView::Fixed64(bits) },
        ],
        WireValueView::Utf8(s) => seq![text_field(6, s)],
    }
}

/// A value that was written reads back.
pub proof fn value_reads_back(value: WireValueView, depth: nat)
    ensures
        value_of(value_fields(value), depth) == Some(value),
        all_sound(value_fields(value)),
{
    broadcast use signed_inverts_unsigned;

    let fields = value_fields(value);
    if !(value is Missing) {
        let tag = fields[0].tag;
        reveal_with_fuel(value_runs, 2);
        assert(value_runs(fields, 1) == Some(Some((0int, tag))));
        assert(fields.subrange(0, 1) =~= fields);
        assert(fields.drop_last() =~= Seq::empty());
        reveal_with_fuel(with_tag, 2);
        assert(with_tag(fields, tag) =~= fields);
        reveal_with_fuel(number, 2);
        reveal_with_fuel(fixed, 2);
        if let WireValueView::Utf8(s) = value {
            text_field_reads_back(6, s);
        }
    }
}

fn read_value_kind(fields: &Vec<RawField>, from: usize, to: usize, tag: u32) -> (r: Option<
    WireValue,
>)
    requires
        from <= to <= fields.len(),
        1 <= tag <= 6,
    ensures
        match r {
            Some(value) => value_kind(
                raw_views(fields@).subrange(from as int, to as int),
                tag,
            ) == Some(value@),
            None => value_kind(raw_views(fields@).subrange(from as int, to as int), tag) is None,
        },
{
    if tag == 5 {
        return match fixed_in(fields, from, to, 5) {
            Some(bits) => Some(WireValue::Float64(bits)),
            None => None,
        };
    }
    if tag == 6 {
        return match text_in(fields, from, to, 6) {
            Some(s) => Some(WireValue::Utf8(s)),
            None => None,
        };
    }
    match number_in(fields, from, to, tag) {
        Some(n) => Some(
            if tag == 1 {
                WireValue::Null(n != 0)
            } else if tag == 2 {
                WireValue::Boolean(n != 0)
            } else if tag == 3 {
                WireValue::Int64(to_signed(n))
            } else {
                WireValue::UInt64(n)
            },
        ),
        None => None,
    }
}

proof fn value_runs_stay_bad(fields: Seq<RawView>, low: int, high: int)
    requires
        low <= high,
        value_runs(fields, low) is None,
    ensures
        value_runs(fields, high) is None,
    decreases high - low,
{
    if low < high {
        value_runs_stay_bad(fields, low, high - 1);
    }
}

/// The value that a message holds.
pub fn read_value(fields: &Vec<RawField>, depth: u32) -> (r: Option<WireValue>)
    ensures
        match r {
            Some(value) => value_of(raw_views(fields@), depth as nat) == Some(value@),
            None => value_of(raw_views(fields@), depth as nat) is None,
        },
{
    let ghost views = raw_views(fields@);
    if !all_passable(fields, 1, 6, depth) {
        return None;
    }
    let mut run: Option<(usize, u32)> = None;
    for i in 0..fields.len()
        invariant
            views == raw_views(fields@),
            passable(views, 1, 6, depth as nat),
            match run {
                Some((from, tag)) => {
                    &&& from < i
                    &&& 1 <= tag <= 6
                    &&& value_runs(views, i as int) == Some(Some((from as int, tag)))
                },
                None => value_runs(views, i as int) == Some(None::<(int, u32)>),
            },
    {
        proof {
            assert(views[i as int].tag == fields@[i as int].tag);
            if value_runs(views, i + 1) is None {
                value_runs_stay_bad(views, i + 1, fields.len() as int);
            }
        }
        let tag: u32 = fields[i].tag;
        if 1 <= tag && tag <= 6 {
            match run {
                Some((from, current)) => {
                    if current != tag {
                        if read_value_kind(fields, from, i, current).is_none() {
                            return None;
                        }
                        run = Some((i, tag));
                    }
                },
                None => {
                    run = Some((i, tag));
                },
            }
        }
    }
    match run {
        None => Some(WireValue::Missing),
        Some((from, tag)) => read_value_kind(fields, from, fields.len(), tag),
    }
}

/// The message of a value.
pub fn write_value(value: &WireValue) -> (r: Vec<RawField>)
    ensures
        raw_views(r@) == value_fields(value@),
        all_sound(raw_views(r@)),
{
    let mut fields: Vec<RawField> = Vec::new();
    match value {
        WireValue::Missing => {},
        WireValue::Null(b) => fields.push(
            RawField { tag: 1, value: FieldValue::Varint(if *b { 1 } else { 0 }) },
        ),
        WireValue::Boolean(b) => fields.push(
            RawField { tag: 2, value: FieldValue::Varint(if *b { 1 } else { 0 }) },
        ),
        WireValue::Int64(n) => fields.push(
            RawField { tag: 3, value: FieldValue::Varint(to_unsigned(*n)) },
        ),
        WireValue::UInt64(n) => fields.push(RawField { tag: 4, value: FieldValue::Varint(*n) }),
        WireValue::Float64(bits) => fields.push(
            RawField { tag: 5, value: FieldValue::Fixed64(*bits) },
        ),
        WireValue::Utf8(s) => push_text(&mut fields, 6, s.as_str()),
    }
    proof {
        assert(raw_views(fields@) =~= value_fields(value@));
    }
    fields
}

} // verus!
