//! Messages as lists of numbered fields.

use crate::wire::varint::{
    fixed_at, little_endian, low_bytes, low_bytes_read_back, read_varint, varint, varint_at,
    varint_reads_back, write_fixed, write_varint,
};
use vstd::prelude::*;

verus! {

/// What a field holds.
pub enum FieldValue {
    Varint(u64),
    Fixed64(u64),
    Bytes(Vec<u8>),
    Fixed32(u64),
    /// A group, of which nothing is kept.
    Group,
}

pub enum ValueView {
    Varint(u64),
    Fixed64(u64),
    Bytes(Seq<u8>),
    Fixed32(u64),
    Group,
}

impl View for FieldValue {
    type V = ValueView;

    open spec fn view(&self) -> ValueView {
        match self {
            FieldValue::Varint(n) => ValueView::Varint(*n),
            FieldValue::Fixed64(n) => ValueView::Fixed64(*n),
            FieldValue::Bytes(bytes) => ValueView::Bytes(bytes@),
            FieldValue::Fixed32(n) => ValueView::Fixed32(*n),
            FieldValue::Group => ValueView::Group,
        }
    }
}

/// One field of a message.
pub struct RawField {
    pub tag: u32,
    pub value: FieldValue,
}

pub struct RawView {
    pub tag: u32,
    pub value: ValueView,
}

impl View for RawField {
    type V = RawView;

    open spec fn view(&self) -> RawView {
        RawView { tag: self.tag, value: self.value@ }
    }
}

pub open spec fn raw_views(fields: Seq<RawField>) -> Seq<RawView> {
    Seq::new(fields.len(), |i: int| fields[i]@)
}

/// How many messages may stand within each other.
pub const RECURSION_LIMIT: u32 = 100;

impl ValueView {
    pub open spec fn wire_type(self) -> nat {
        match self {
            ValueView::Varint(_) => 0,
            ValueView::Fixed64(_) => 1,
            ValueView::Bytes(_) => 2,
            ValueView::Group => 3,
            ValueView::Fixed32(_) => 5,
        }
    }

    /// The bytes of a value; a group is never written.
    pub open spec fn bytes(self) -> Seq<u8> {
        match self {
            ValueView::Varint(n) => varint(n as nat),
            ValueView::Fixed64(n) => low_bytes(n as nat, 8),
            ValueView::Bytes(bytes) => varint(bytes.len()) + bytes,
            ValueView::Fixed32(n) => low_bytes(n as nat, 4),
            ValueView::Group => Seq::empty(),
        }
    }
}

impl RawView {
    /// Whether a field is of a kind that is written, with a number that fields can have.
    pub open spec fn sound(self) -> bool {
        &&& 1 <= self.tag <= 0x1FFF_FFFF
        &&& self.value is Varint || self.value is Fixed64 || self.value is Bytes
    }

    /// Whether a field can be written.
    pub open spec fn writable(self) -> bool {
        self.sound() && (self.value matches ValueView::Bytes(bytes) ==> bytes.len() <= u64::MAX)
    }

    /// The bytes of a field: its number and kind, then its value.
    pub open spec fn bytes(self) -> Seq<u8> {
        varint((self.tag * 8 + self.value.wire_type()) as nat) + self.value.bytes()
    }
}

/// The bytes of a message.
#[verifier::opaque]
pub open spec fn message_bytes(fields: Seq<RawView>) -> Seq<u8>
    decreases fields.len(),
{
    if fields.len() == 0 {
        Seq::empty()
    } else {
        message_bytes(fields.drop_last()) + fields.last().bytes()
    }
}

/// The number and kind of the field at the start of `bytes`, and the bytes that they take.
pub open spec fn read_key(bytes: Seq<u8>) -> Option<(u32, nat, nat)> {
    match read_varint(bytes) {
        None => None,
        Some((key, length)) => if key > u32::MAX || key / 8 == 0 || !(key % 8 <= 5) {
            None
        } else {
            Some(((key / 8) as u32, key % 8, length))
        },
    }
}

/// The number of bytes of the group with number `tag` whose fields start `bytes`, up to its end
/// marker and with it, where groups may stand within it up to `depth` deep.
pub open spec fn group_length(bytes: Seq<u8>, tag: u32, depth: nat) -> Option<nat>
    decreases bytes.len(), 0int,
{
    match read_key(bytes) {
        None => None,
        Some((inner, kind, length)) => if length == 0 || length > bytes.len() {
            None
        } else if kind == 4 {
            if inner == tag {
                Some(length)
            } else {
                None
            }
        } else if depth == 0 {
            None
        } else {
            let rest = bytes.skip(length as int);
            match skipped_length(rest, inner, kind, depth) {
                None => None,
                Some(more) => if more > rest.len() {
                    None
                } else {
                    match group_length(rest.skip(more as int), tag, depth) {
                        None => None,
                        Some(others) => Some(length + more + others),
                    }
                },
            }
        },
    }
}

/// The number of bytes of the value of a field that is passed over.
pub open spec fn skipped_length(bytes: Seq<u8>, tag: u32, kind: nat, depth: nat) -> Option<nat>
    decreases bytes.len(), 1int,
{
    if kind == 0 {
        match read_varint(bytes) {
            None => None,
            Some((_, length)) => Some(length),
        }
    } else if kind == 1 {
        if bytes.len() >= 8 {
            Some(8)
        } else {
            None
        }
    } else if kind == 5 {
        if bytes.len() >= 4 {
            Some(4)
        } else {
            None
        }
    } else if kind == 2 {
        match read_varint(bytes) {
            None => None,
            Some((size, length)) => if length + size <= bytes.len() {
                Some(length + size)
            } else {
                None
            },
        }
    } else if kind == 3 && depth > 0 {
        group_length(bytes, tag, (depth - 1) as nat)
    } else {
        None
    }
}

/// The field at the start of `bytes` and the number of bytes it takes.
pub open spec fn read_field(bytes: Seq<u8>, depth: nat) -> Option<(RawView, nat)> {
    match read_key(bytes) {
        None => None,
        Some((tag, kind, key_length)) => {
            let rest = bytes.skip(key_length as int);
            if kind == 0 {
                match read_varint(rest) {
                    None => None,
                    Some((value, length)) => Some(
                        (
                            RawView { tag, value: ValueView::Varint(value as u64) },
                            key_length + length,
                        ),
                    ),
                }
            } else if kind == 1 {
                if rest.len() < 8 {
                    None
                } else {
                    let value = little_endian(rest.take(8)) as u64;
                    Some((RawView { tag, value: ValueView::Fixed64(value) }, key_length + 8))
                }
            } else if kind == 2 {
                match read_varint(rest) {
                    None => None,
                    Some((size, length)) => if length + size > rest.len() {
                        None
                    } else {
                        let value = rest.subrange(length as int, (length + size) as int);
                        Some(
                            (
                                RawView { tag, value: ValueView::Bytes(value) },
                                key_length + length + size,
                            ),
                        )
                    },
                }
            } else if kind == 3 {
                match skipped_length(rest, tag, 3, depth) {
                    None => None,
                    Some(length) => Some(
                        (RawView { tag, value: ValueView::Group }, key_length + length),
                    ),
                }
            } else if kind == 5 {
                if rest.len() < 4 {
                    None
                } else {
                    let value = little_endian(rest.take(4)) as u64;
                    Some((RawView { tag, value: ValueView::Fixed32(value) }, key_length + 4))
                }
            } else {
                None
            }
        },
    }
}

/// The fields of a message, where its bytes are sound.
pub open spec fn parsed(bytes: Seq<u8>, depth: nat) -> Option<Seq<RawView>>
    decreases bytes.len(),
{
    if bytes.len() == 0 {
        Some(Seq::empty())
    } else {
        match read_field(bytes, depth) {
            None => None,
            Some((field, length)) => if length == 0 || length > bytes.len() {
                None
            } else {
                match parsed(bytes.skip(length as int), depth) {
                    None => None,
                    Some(rest) => Some(seq![field] + rest),
                }
            },
        }
    }
}

// ---- what is written reads back

pub proof fn message_bytes_of_concatenation(a: Seq<RawView>, b: Seq<RawView>)
    ensures
        message_bytes(a + b) == message_bytes(a) + message_bytes(b),
    decreases b.len(),
{
    reveal(message_bytes);
    if b.len() == 0 {
        assert(a + b =~= a);
        assert(message_bytes(a) + message_bytes(b) =~= message_bytes(a));
    } else {
        assert((a + b).drop_last() =~= a + b.drop_last());
        message_bytes_of_concatenation(a, b.drop_last());
        assert(message_bytes(a + b) =~= message_bytes(a) + message_bytes(b));
    }
}

proof fn key_reads_back(tag: u32, kind: nat, tail: Seq<u8>)
    requires
        1 <= tag <= 0x1FFF_FFFF,
        kind <= 5,
    ensures
        ({
            let key = varint((tag * 8 + kind) as nat);
            read_key(key + tail) == Some((tag, kind, key.len()))
        }),
{
    let key = (tag * 8 + kind) as nat;
    varint_reads_back(key, tail, 0);
    assert(key / 8 == tag && key % 8 == kind);
}

/// A field that was written reads back, whatever stands behind it.
pub proof fn field_reads_back(field: RawView, tail: Seq<u8>, depth: nat)
    requires
        field.writable(),
    ensures
        read_field(field.bytes() + tail, depth) == Some((field, field.bytes().len())),
        field.bytes().len() >= 1,
{
    let kind = field.value.wire_type();
    let key = varint((field.tag * 8 + kind) as nat);
    let value = field.value.bytes();
    varint_reads_back((field.tag * 8 + kind) as nat, value + tail, 0);
    key_reads_back(field.tag, kind, value + tail);
    assert(field.bytes() + tail =~= key + (value + tail));
    let rest = (field.bytes() + tail).skip(key.len() as int);
    assert(rest =~= value + tail);
    match field.value {
        ValueView::Varint(n) => {
            varint_reads_back(n as nat, tail, 0);
        },
        ValueView::Fixed64(n) => {
            reveal_with_fuel(crate::wire::varint::bytes_range, 9);
            low_bytes_read_back(n as nat, 8);
            assert(rest.take(8) =~= value);
        },
        ValueView::Bytes(bytes) => {
            assert(rest =~= varint(bytes.len()) + (bytes + tail));
            varint_reads_back(bytes.len(), bytes + tail, 0);
            let length = varint(bytes.len()).len();
            assert(rest.subrange(length as int, (length + bytes.len()) as int) =~= bytes);
        },
        ValueView::Fixed32(_) | ValueView::Group => {},
    }
}

/// Whether all fields can be written.
pub open spec fn all_writable(fields: Seq<RawView>) -> bool {
    forall|i: int| 0 <= i < fields.len() ==> (#[trigger] fields[i]).writable()
}

/// Whether all fields are of kinds that are written, with numbers that fields can have.
pub open spec fn all_sound(fields: Seq<RawView>) -> bool {
    forall|i: int| 0 <= i < fields.len() ==> (#[trigger] fields[i]).sound()
}

/// What a field holds is no longer than the message.
pub proof fn payload_is_shorter(fields: Seq<RawView>, i: int)
    requires
        0 <= i < fields.len(),
    ensures
        fields[i].value matches ValueView::Bytes(bytes) ==> bytes.len() <= message_bytes(
            fields,
        ).len(),
    decreases fields.len(),
{
    reveal(message_bytes);
    if i < fields.len() - 1 {
        payload_is_shorter(fields.drop_last(), i);
        assert(fields.drop_last()[i] == fields[i]);
    }
}

/// The fields of a message that is not too long can be written.
pub proof fn short_is_writable(fields: Seq<RawView>)
    requires
        all_sound(fields),
        message_bytes(fields).len() <= u64::MAX,
    ensures
        all_writable(fields),
{
    assert forall|i: int| 0 <= i < fields.len() implies (#[trigger] fields[i]).writable() by {
        payload_is_shorter(fields, i);
    }
}

/// A message that was written reads back: its fields, in order.
pub proof fn message_reads_back(fields: Seq<RawView>, depth: nat)
    requires
        all_writable(fields),
    ensures
        parsed(message_bytes(fields), depth) == Some(fields),
    decreases fields.len(),
{
    reveal(message_bytes);
    if fields.len() == 0 {
        assert(fields =~= Seq::empty());
    } else {
        let first = fields[0];
        let rest = fields.drop_first();
        assert(seq![first] + rest =~= fields);
        message_bytes_of_concatenation(seq![first], rest);
        assert(seq![first].drop_last() =~= Seq::empty());
        reveal_with_fuel(message_bytes, 2);
        assert(seq![first].last() == first);
        assert(message_bytes(seq![first]) =~= first.bytes());
        assert(first.writable());
        assert forall|i: int| 0 <= i < rest.len() implies (#[trigger] rest[i]).writable() by {
            assert(rest[i] == fields[i + 1]);
        }
        message_reads_back(rest, depth);
        field_reads_back(first, message_bytes(rest), depth);
        let bytes = message_bytes(fields);
        assert(bytes == first.bytes() + message_bytes(rest));
        assert(bytes.skip(first.bytes().len() as int) =~= message_bytes(rest));
    }
}

// ---- writing and reading

impl RawField {
    /// Appends the bytes of this field.
    pub fn write(&self, out: &mut Vec<u8>)
        requires
            self@.sound(),
        ensures
            final(out)@ == old(out)@ + self@.bytes(),
            self@.writable(),
    {
        let kind: u64 = match &self.value {
            FieldValue::Varint(_) => 0,
            FieldValue::Fixed64(_) => 1,
            FieldValue::Bytes(_) => 2,
            FieldValue::Group => 3,
            FieldValue::Fixed32(_) => 5,
        };
        write_varint(out, self.tag as u64 * 8 + kind);
        let ghost with_key = out@;
        match &self.value {
            FieldValue::Varint(n) => write_varint(out, *n),
            FieldValue::Fixed64(n) => write_fixed(out, *n, 8),
            FieldValue::Bytes(bytes) => {
                write_varint(out, bytes.len() as u64);
                out.extend_from_slice(bytes.as_slice());
                proof {
                    assert(out@ =~= with_key + self@.value.bytes());
                }
            },
            FieldValue::Fixed32(n) => write_fixed(out, *n, 4),
            FieldValue::Group => {},
        }
        proof {
            assert(out@ =~= old(out)@ + self@.bytes());
        }
    }
}

/// The bytes of a message.
pub fn write_message(fields: &Vec<RawField>) -> (out: Vec<u8>)
    requires
        all_sound(raw_views(fields@)),
    ensures
        out@ == message_bytes(raw_views(fields@)),
{
    let ghost views = raw_views(fields@);
    let mut out: Vec<u8> = Vec::new();
    proof {
        assert(views.take(0) =~= Seq::empty());
        assert(out@ =~= Seq::empty());
        reveal(message_bytes);
    }
    for i in 0..fields.len()
        invariant
            views == raw_views(fields@),
            all_sound(views),
            out@ == message_bytes(views.take(i as int)),
    {
        proof {
            reveal(message_bytes);
            assert(views[i as int].sound());
            assert(views.take(i + 1).drop_last() =~= views.take(i as int));
            assert(views.take(i + 1).last() == fields@[i as int]@);
        }
        fields[i].write(&mut out);
    }
    proof {
        assert(views.take(fields.len() as int) =~= views);
    }
    out
}

/// The number and kind of the field at a place, and the bytes that they take.
fn key_at(bytes: &Vec<u8>, at: usize) -> (r: Option<(u32, u8, usize)>)
    requires
        at <= bytes.len(),
    ensures
        match r {
            Some((tag, kind, length)) => {
                &&& read_key(bytes@.skip(at as int)) == Some((tag, kind as nat, length as nat))
                &&& kind <= 5
                &&& 1 <= length
                &&& at + length <= bytes.len()
            },
            None => read_key(bytes@.skip(at as int)) is None,
        },
{
    match varint_at(bytes, at, 0) {
        None => None,
        Some((key, length)) => {
            if key > 0xFFFF_FFFF || key / 8 == 0 || key % 8 > 5 {
                None
            } else {
                Some(((key / 8) as u32, (key % 8) as u8, length))
            }
        },
    }
}

/// Where the group ends whose fields start at a place.
fn group_end(bytes: &Vec<u8>, at: usize, tag: u32, depth: u32) -> (r: Option<usize>)
    requires
        at <= bytes.len(),
    ensures
        match r {
            Some(end) => {
                &&& at < end <= bytes.len()
                &&& group_length(bytes@.skip(at as int), tag, depth as nat) == Some(
                    (end - at) as nat,
                )
            },
            None => group_length(bytes@.skip(at as int), tag, depth as nat) is None,
        },
    decreases bytes.len() - at, 0int,
{
    let ghost start = bytes@.skip(at as int);
    match key_at(bytes, at) {
        None => None,
        Some((inner, kind, length)) => {
            if kind == 4 {
                return if inner == tag {
                    Some(at + length)
                } else {
                    None
                };
            }
            if depth == 0 {
                return None;
            }
            let ghost rest = start.skip(length as int);
            proof {
                assert(rest =~= bytes@.skip(at + length));
            }
            match skipped_end(bytes, at + length, inner, kind, depth) {
                None => None,
                Some(next) => {
                    proof {
                        assert(rest.skip(next - at - length) =~= bytes@.skip(next as int));
                    }
                    group_end(bytes, next, tag, depth)
                },
            }
        },
    }
}

/// Where the value ends of a field that is passed over.
fn skipped_end(bytes: &Vec<u8>, at: usize, tag: u32, kind: u8, depth: u32) -> (r: Option<usize>)
    requires
        at <= bytes.len(),
    ensures
        match r {
            Some(end) => {
                &&& at <= end <= bytes.len()
                &&& skipped_length(bytes@.skip(at as int), tag, kind as nat, depth as nat) == Some(
                    (end - at) as nat,
                )
            },
            None => {
                ||| skipped_length(bytes@.skip(at as int), tag, kind as nat, depth as nat) is None
            },
        },
    decreases bytes.len() - at, 1int,
{
    let ghost start = bytes@.skip(at as int);
    if kind == 0 {
        match varint_at(bytes, at, 0) {
            None => None,
            Some((_, length)) => Some(at + length),
        }
    } else if kind == 1 {
        if bytes.len() - at >= 8 {
            Some(at + 8)
        } else {
            None
        }
    } else if kind == 5 {
        if bytes.len() - at >= 4 {
            Some(at + 4)
        } else {
            None
        }
    } else if kind == 2 {
        match varint_at(bytes, at, 0) {
            None => None,
            Some((size, length)) => {
                if size <= (bytes.len() - at - length) as u64 {
                    Some(at + length + size as usize)
                } else {
                    None
                }
            },
        }
    } else if kind == 3 && depth > 0 {
        group_end(bytes, at, tag, depth - 1)
    } else {
        None
    }
}

/// The bytes between two places.
fn slice_of(bytes: &Vec<u8>, from: usize, to: usize) -> (r: Vec<u8>)
    requires
        from <= to <= bytes.len(),
    ensures
        r@ == bytes@.subrange(from as int, to as int),
{
    let mut r: Vec<u8> = Vec::with_capacity(to - from);
    for i in from..to
        invariant
            from <= to <= bytes.len(),
            r@ =~= bytes@.subrange(from as int, i as int),
    {
        r.push(bytes[i]);
    }
    r
}

/// The field at a place and where it ends.
fn field_at(bytes: &Vec<u8>, at: usize, depth: u32) -> (r: Option<(RawField, usize)>)
    requires
        at <= bytes.len(),
    ensures
        match r {
            Some((field, end)) => {
                &&& at < end <= bytes.len()
                &&& read_field(bytes@.skip(at as int), depth as nat) == Some(
                    (field@, (end - at) as nat),
                )
            },
            None => read_field(bytes@.skip(at as int), depth as nat) is None,
        },
{
    let ghost start = bytes@.skip(at as int);
    let (tag, kind, key_length): (u32, u8, usize) = match key_at(bytes, at) {
        Some(key) => key,
        None => return None,
    };
    let value_at: usize = at + key_length;
    let ghost rest = start.skip(key_length as int);
    proof {
        assert(rest =~= bytes@.skip(value_at as int));
    }
    if kind == 0 {
        match varint_at(bytes, value_at, 0) {
            None => None,
            Some((value, length)) => Some(
                (RawField { tag, value: FieldValue::Varint(value) }, value_at + length),
            ),
        }
    } else if kind == 1 {
        if bytes.len() - value_at < 8 {
            return None;
        }
        let value: u64 = fixed_at(bytes, value_at, 8);
        proof {
            assert(rest.take(8) =~= bytes@.subrange(value_at as int, value_at + 8));
        }
        Some((RawField { tag, value: FieldValue::Fixed64(value) }, value_at + 8))
    } else if kind == 2 {
        match varint_at(bytes, value_at, 0) {
            None => None,
            Some((size, length)) => {
                if size > (bytes.len() - value_at - length) as u64 {
                    return None;
                }
                let from: usize = value_at + length;
                let to: usize = from + size as usize;
                let value = slice_of(bytes, from, to);
                proof {
                    assert(value@ =~= rest.subrange(length as int, length + size));
                }
                Some((RawField { tag, value: FieldValue::Bytes(value) }, to))
            },
        }
    } else if kind == 3 {
        match skipped_end(bytes, value_at, tag, 3, depth) {
            None => None,
            Some(end) => Some((RawField { tag, value: FieldValue::Group }, end)),
        }
    } else if kind == 5 {
        if bytes.len() - value_at < 4 {
            return None;
        }
        let value: u64 = fixed_at(bytes, value_at, 4);
        proof {
            assert(rest.take(4) =~= bytes@.subrange(value_at as int, value_at + 4));
        }
        Some((RawField { tag, value: FieldValue::Fixed32(value) }, value_at + 4))
    } else {
        None
    }
}

/// Fields in front of those that are still to be read.
pub open spec fn with_rest(fields: Seq<RawView>, rest: Option<Seq<RawView>>) -> Option<
    Seq<RawView>,
> {
    match rest {
        Some(rest) => Some(fields + rest),
        None => None,
    }
}

/// The fields of a message.
pub fn parse_message(bytes: &Vec<u8>, depth: u32) -> (r: Option<Vec<RawField>>)
    ensures
        match r {
            Some(fields) => parsed(bytes@, depth as nat) == Some(raw_views(fields@)),
            None => parsed(bytes@, depth as nat) is None,
        },
{
    let mut fields: Vec<RawField> = Vec::new();
    let mut at: usize = 0;
    proof {
        assert(bytes@.skip(0) =~= bytes@);
        assert(raw_views(fields@) =~= Seq::empty());
        if let Some(rest) = parsed(bytes@, depth as nat) {
            assert(Seq::<RawView>::empty() + rest =~= rest);
        }
    }
    while at < bytes.len()
        invariant
            at <= bytes.len(),
            parsed(bytes@, depth as nat) == with_rest(
                raw_views(fields@),
                parsed(bytes@.skip(at as int), depth as nat),
            ),
        decreases bytes.len() - at,
    {
        let ghost start = bytes@.skip(at as int);
        let ghost earlier = raw_views(fields@);
        match field_at(bytes, at, depth) {
            None => return None,
            Some((field, end)) => {
                let ghost view = field@;
                fields.push(field);
                proof {
                    assert(start.skip(end - at) =~= bytes@.skip(end as int));
                    assert(raw_views(fields@) =~= earlier.push(view));
                    if let Some(rest) = parsed(bytes@.skip(end as int), depth as nat) {
                        assert(earlier + (seq![view] + rest) =~= earlier.push(view) + rest);
                    }
                }
                at = end;
            },
        }
    }
    proof {
        assert(bytes@.skip(at as int) =~= Seq::empty());
        assert(raw_views(fields@) + Seq::<RawView>::empty() =~= raw_views(fields@));
    }
    Some(fields)
}

} // verus!
