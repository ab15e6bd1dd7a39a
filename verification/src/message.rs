//! Roughtime messages: a map from tags to byte values, and its wire format.
//!
//! On the wire a message with `n` fields is: the field count as a
//! little-endian `u32`; for `n >= 2`, `n - 1` little-endian `u32` offsets of
//! values 1..n within the value area; the `n` tags; the values, one after
//! another. Tags are strictly increasing and every length is a multiple of
//! four.
use std::collections::HashMap;
use vstd::prelude::*;

use crate::bytes::{append_bytes, copy_range, le_u32_at, le_u32_bytes, push_u32_le, read_u32_le};
use crate::error::Error;
use crate::tag::Tag;

verus! {

/// The fields of a message, in wire order.
pub type Fields = Seq<(Tag, Seq<u8>)>;

/// The largest number of fields a message may hold.
pub const MAX_NUM_TAGS: u32 = 1024;

/// Tags strictly increase by their wire value.
pub open spec fn fields_sorted(f: Fields) -> bool {
    forall|i: int, j: int|
        0 <= i < j < f.len() ==> #[trigger] f[i].0.spec_wire_value() < #[trigger] f[j].0.spec_wire_value()
}

/// All values, one after another.
pub open spec fn values_concat(f: Fields) -> Seq<u8>
    decreases f.len(),
{
    if f.len() == 0 {
        Seq::empty()
    } else {
        values_concat(f.drop_last()) + f.last().1
    }
}

/// The wire bytes of all tags, one after another.
pub open spec fn tags_concat(f: Fields) -> Seq<u8>
    decreases f.len(),
{
    if f.len() == 0 {
        Seq::empty()
    } else {
        tags_concat(f.drop_last()) + le_u32_bytes(f.last().0.spec_wire_value())
    }
}

/// Where the value of field `i` starts within the value area.
pub open spec fn value_offset(f: Fields, i: int) -> nat {
    values_concat(f.take(i)).len()
}

/// The offsets of the values of fields `1..k`.
pub open spec fn offsets_concat(f: Fields, k: int) -> Seq<u8>
    decreases k,
{
    if k <= 1 {
        Seq::empty()
    } else {
        offsets_concat(f, k - 1) + le_u32_bytes(value_offset(f, k - 1) as u32)
    }
}

/// The wire encoding of a message.
pub open spec fn spec_encode(f: Fields) -> Seq<u8> {
    le_u32_bytes(f.len() as u32) + offsets_concat(f, f.len() as int) + tags_concat(f)
        + values_concat(f)
}

/// The length of the header of a message with `n` fields: count, offsets, tags.
pub open spec fn header_len(n: int) -> int {
    if n == 0 {
        4
    } else {
        8 * n
    }
}

/// The length of the wire encoding of a message.
pub open spec fn spec_encoded_size(f: Fields) -> int {
    header_len(f.len() as int) + values_concat(f).len()
}

/// A message whose encoding fits the 32-bit lengths and offsets of the format.
pub open spec fn encodable(f: Fields) -> bool {
    spec_encoded_size(f) <= u32::MAX
}

/// The frame marker that precedes an encoded message in the IETF protocol.
pub open spec fn spec_frame_marker() -> Seq<u8> {
    seq![0x52u8, 0x4fu8, 0x55u8, 0x47u8, 0x48u8, 0x54u8, 0x49u8, 0x4du8]
}

/// A framed message: the marker, the message length, the message.
pub open spec fn spec_encode_framed(f: Fields) -> Seq<u8> {
    spec_frame_marker() + le_u32_bytes(spec_encode(f).len() as u32) + spec_encode(f)
}

/// The frame marker, `ROUGHTIM`.
pub fn frame_marker() -> (r: Vec<u8>)
    ensures
        r@ == spec_frame_marker(),
{
    let r = vec![0x52u8, 0x4fu8, 0x55u8, 0x47u8, 0x48u8, 0x54u8, 0x49u8, 0x4du8];
    assert(r@ =~= spec_frame_marker());
    r
}

pub proof fn lemma_values_concat_len_take(f: Fields, i: int)
    requires
        0 <= i <= f.len(),
    ensures
        values_concat(f.take(i)).len() <= values_concat(f).len(),
        values_concat(f.take(i)) == values_concat(f).subrange(0, values_concat(f.take(i)).len() as int),
    decreases f.len(),
{
    if i < f.len() {
        assert(f.take(f.len() - 1) =~= f.drop_last());
        assert(f.drop_last().take(i) =~= f.take(i));
        lemma_values_concat_len_take(f.drop_last(), i);
    } else {
        assert(f.take(i) =~= f);
    }
}

pub proof fn lemma_value_offset_step(f: Fields, i: int)
    requires
        0 <= i < f.len(),
    ensures
        values_concat(f.take(i + 1)) == values_concat(f.take(i)) + f[i].1,
        value_offset(f, i + 1) == value_offset(f, i) + f[i].1.len(),
{
    assert(f.take(i + 1).drop_last() =~= f.take(i));
}

pub proof fn lemma_tags_concat_len(f: Fields)
    ensures
        tags_concat(f).len() == 4 * f.len(),
    decreases f.len(),
{
    if f.len() > 0 {
        lemma_tags_concat_len(f.drop_last());
    }
}

pub proof fn lemma_offsets_concat_len(f: Fields, k: int)
    requires
        k >= 1,
    ensures
        offsets_concat(f, k).len() == 4 * (k - 1),
    decreases k,
{
    if k > 1 {
        lemma_offsets_concat_len(f, k - 1);
    }
}

/// A Roughtime message under construction or as parsed.
pub struct RtMessage {
    fields: Vec<(Tag, Vec<u8>)>,
}

impl View for RtMessage {
    type V = Fields;

    closed spec fn view(&self) -> Fields {
        self.fields@.map_values(|p: (Tag, Vec<u8>)| (p.0, p.1@))
    }
}

impl RtMessage {
    /// A message's tags strictly increase.
    pub open spec fn wf(&self) -> bool {
        fields_sorted(self@)
    }

    /// An empty message.
    pub fn new() -> (r: RtMessage)
        ensures
            r@ == Seq::<(Tag, Seq<u8>)>::empty(),
            r.wf(),
    {
        let r = RtMessage { fields: Vec::new() };
        assert(r@ =~= Seq::<(Tag, Seq<u8>)>::empty());
        r
    }

    /// An empty message with room for `num_fields` fields.
    pub fn with_capacity(num_fields: usize) -> (r: RtMessage)
        ensures
            r@ == Seq::<(Tag, Seq<u8>)>::empty(),
            r.wf(),
    {
        let r = RtMessage { fields: Vec::with_capacity(num_fields) };
        assert(r@ =~= Seq::<(Tag, Seq<u8>)>::empty());
        r
    }

    /// The number of fields.
    pub fn num_fields(&self) -> (r: usize)
        ensures
            r == self@.len(),
    {
        self.fields.len()
    }

    /// The tag of field `i`.
    pub fn tag_at(&self, i: usize) -> (r: Tag)
        requires
            i < self@.len(),
        ensures
            r == self@[i as int].0,
    {
        self.fields[i].0
    }

    /// The value of field `i`.
    pub fn value_at(&self, i: usize) -> (r: &[u8])
        requires
            i < self@.len(),
        ensures
            r@ == self@[i as int].1,
    {
        self.fields[i].1.as_slice()
    }

    /// Appends a field. Refused when `tag` is not greater than the last tag.
    pub fn add_field(&mut self, tag: Tag, value: &[u8]) -> (r: Result<(), Error>)
        requires
            old(self).wf(),
        ensures
            final(self).wf(),
            old(self)@.len() > 0 && old(self)@.last().0 == tag ==> r == Err::<(), Error>(
                Error::DuplicateTag(tag),
            ) && final(self)@ == old(self)@,
            old(self)@.len() > 0 && tag.spec_wire_value() < old(self)@.last().0.spec_wire_value()
                ==> r == Err::<(), Error>(Error::TagNotStrictlyIncreasing(tag)) && final(self)@
                == old(self)@,
            (old(self)@.len() == 0 || old(self)@.last().0.spec_wire_value() < tag.spec_wire_value())
                ==> r is Ok && final(self)@ == old(self)@.push((tag, value@)),
    {
        let n = self.fields.len();
        if n > 0 {
            let last = self.fields[n - 1].0;
            proof {
                crate::tag::lemma_wire_value_roundtrip(last, tag.spec_wire_value());
                crate::tag::lemma_wire_value_roundtrip(tag, last.spec_wire_value());
            }
            if tag.wire_value() == last.wire_value() {
                return Err(Error::DuplicateTag(tag));
            } else if tag.wire_value() < last.wire_value() {
                return Err(Error::TagNotStrictlyIncreasing(tag));
            }
        }
        let v = copy_range(value, 0, value.len());
        assert(value@.subrange(0, value@.len() as int) =~= value@);
        self.fields.push((tag, v));
        assert(self@ =~= old(self)@.push((tag, value@)));
        Ok(())
    }

    /// Removes every field.
    pub fn clear(&mut self)
        ensures
            final(self)@ == Seq::<(Tag, Seq<u8>)>::empty(),
            final(self).wf(),
    {
        self.fields.clear();
        assert(self@ =~= Seq::<(Tag, Seq<u8>)>::empty());
    }

    /// The length of the wire encoding.
    pub fn encoded_size(&self) -> (r: usize)
        requires
            encodable(self@),
        ensures
            r == spec_encoded_size(self@),
    {
        let n = self.fields.len();
        let mut values_size: usize = 0;
        let mut i: usize = 0;
        while i < n
            invariant
                n == self@.len(),
                i <= n,
                encodable(self@),
                values_size == value_offset(self@, i as int),
            decreases n - i,
        {
            proof {
                lemma_value_offset_step(self@, i as int);
                lemma_values_concat_len_take(self@, i as int + 1);
            }
            values_size = values_size + self.fields[i].1.len();
            i = i + 1;
        }
        assert(self@.take(n as int) =~= self@);
        let header: usize = if n == 0 { 4 } else { 8 * n };
        header + values_size
    }

    /// The wire encoding.
    pub fn encode(&self) -> (r: Vec<u8>)
        requires
            encodable(self@),
        ensures
            r@ == spec_encode(self@),
    {
        let ghost f = self@;
        let n = self.fields.len();
        proof {
            lemma_values_concat_len_take(f, 0);
        }
        let mut out: Vec<u8> = Vec::new();
        push_u32_le(&mut out, n as u32);
        assert(out@ =~= le_u32_bytes(f.len() as u32) + offsets_concat(f, 1));
        if n > 1 {
            let mut offset_sum: usize = self.fields[0].1.len();
            proof {
                lemma_value_offset_step(f, 0);
                assert(f.take(0) =~= Seq::<(Tag, Seq<u8>)>::empty());
            }
            let mut i: usize = 1;
            while i < n
                invariant
                    n == f.len(),
                    f == self@,
                    1 <= i <= n,
                    encodable(f),
                    offset_sum == value_offset(f, i as int),
                    out@ == le_u32_bytes(f.len() as u32) + offsets_concat(f, i as int),
                decreases n - i,
            {
                proof {
                    lemma_values_concat_len_take(f, i as int);
                    lemma_value_offset_step(f, i as int);
                    lemma_values_concat_len_take(f, i as int + 1);
                }
                push_u32_le(&mut out, offset_sum as u32);
                offset_sum = offset_sum + self.fields[i].1.len();
                i = i + 1;
                assert(out@ =~= le_u32_bytes(f.len() as u32) + offsets_concat(f, i as int));
            }
        }
        let ghost head = out@;
        assert(head == le_u32_bytes(f.len() as u32) + offsets_concat(f, f.len() as int));
        let mut i: usize = 0;
        while i < n
            invariant
                n == f.len(),
                f == self@,
                i <= n,
                out@ == head + tags_concat(f.take(i as int)),
            decreases n - i,
        {
            push_u32_le(&mut out, self.fields[i].0.wire_value());
            assert(f.take(i as int + 1).drop_last() =~= f.take(i as int));
            i = i + 1;
            assert(out@ =~= head + tags_concat(f.take(i as int)));
        }
        assert(f.take(n as int) =~= f);
        let ghost head2 = out@;
        let mut i: usize = 0;
        while i < n
            invariant
                n == f.len(),
                f == self@,
                i <= n,
                out@ == head2 + values_concat(f.take(i as int)),
            decreases n - i,
        {
            append_bytes(&mut out, self.fields[i].1.as_slice());
            proof {
                lemma_value_offset_step(f, i as int);
            }
            i = i + 1;
            assert(out@ =~= head2 + values_concat(f.take(i as int)));
        }
        assert(f.take(n as int) =~= f);
        out
    }
}


/// The smallest length of an encoded request.
pub const MIN_REQUEST_LENGTH: usize = 1024;

/// How many padding bytes bring the encoding of `f` up to the minimum request length.
pub open spec fn spec_padding_length(f: Fields) -> int {
    let size = spec_encoded_size(f);
    if size >= MIN_REQUEST_LENGTH {
        0
    } else if f.len() == 1 {
        MIN_REQUEST_LENGTH - size - 4
    } else {
        MIN_REQUEST_LENGTH - size
    }
}

/// The value of `key` in `f`: the value of the last field with that tag value.
pub open spec fn field_lookup(f: Fields, key: u32) -> Option<Seq<u8>>
    decreases f.len(),
{
    if f.len() == 0 {
        None
    } else if f.last().0.spec_wire_value() == key {
        Some(f.last().1)
    } else {
        field_lookup(f.drop_last(), key)
    }
}

/// The fields of `f` as a map from tag wire value to value.
pub open spec fn fields_model(f: Fields) -> Map<u32, Seq<u8>> {
    Map::new(|k: u32| field_lookup(f, k) is Some, |k: u32| field_lookup(f, k).unwrap())
}

/// A map of byte vectors seen as a map of byte sequences.
pub open spec fn map_model(m: Map<u32, Vec<u8>>) -> Map<u32, Seq<u8>> {
    m.map_values(|v: Vec<u8>| v@)
}

/// The value of `tag` in a map keyed by tag wire values.
pub open spec fn lookup(m: Map<u32, Seq<u8>>, tag: Tag) -> Option<Seq<u8>> {
    if m.contains_key(tag.spec_wire_value()) {
        Some(m[tag.spec_wire_value()])
    } else {
        None
    }
}

/// `m`, keyed by tag wire values, holds what `f` holds.
pub open spec fn map_represents(m: Map<u32, Vec<u8>>, f: Fields) -> bool {
    forall|k: u32|
        #![trigger m.contains_key(k)]
        #![trigger field_lookup(f, k)]
        (m.contains_key(k) <==> field_lookup(f, k) is Some) && (m.contains_key(k) ==> m[k]@
            == field_lookup(f, k).unwrap())
}

impl RtMessage {
    /// The wire encoding preceded by the frame marker and the encoding's length.
    pub fn encode_framed(&self) -> (r: Vec<u8>)
        requires
            encodable(self@),
        ensures
            r@ == spec_encode_framed(self@),
    {
        let encoded = self.encode();
        proof {
            lemma_encode_len(self@);
        }
        let mut frame = frame_marker();
        push_u32_le(&mut frame, encoded.len() as u32);
        append_bytes(&mut frame, encoded.as_slice());
        frame
    }

    /// How many bytes of padding bring the encoding up to the minimum request
    /// length. A message of one field counts the offset that a padding field adds.
    pub fn calculate_padding_length(&self) -> (r: usize)
        requires
            encodable(self@),
            !(self@.len() == 1 && MIN_REQUEST_LENGTH - 4 < spec_encoded_size(self@)
                < MIN_REQUEST_LENGTH),
        ensures
            r == spec_padding_length(self@),
    {
        let size = self.encoded_size();
        if size >= MIN_REQUEST_LENGTH {
            return 0;
        }
        let mut padding_needed = MIN_REQUEST_LENGTH - size;
        if self.fields.len() == 1 {
            padding_needed = padding_needed - 4;
        }
        padding_needed
    }

    /// The fields as a map from tag wire value to value.
    pub fn into_hash_map(self) -> (r: HashMap<u32, Vec<u8>>)
        ensures
            map_represents(r@, self@),
            map_model(r@) == fields_model(self@),
    {
        broadcast use vstd::std_specs::hash::group_hash_axioms;

        let ghost f = self@;
        let mut m: HashMap<u32, Vec<u8>> = HashMap::new();
        let mut fields = self.fields;
        let n = fields.len();
        let mut rest: Vec<(Tag, Vec<u8>)> = Vec::new();
        // Move the fields out in reverse so that each can be taken by value.
        while fields.len() > 0
            invariant
                n == f.len(),
                fields@.len() + rest@.len() == n,
                forall|i: int| 0 <= i < fields@.len() ==> (#[trigger] fields@[i]).0 == f[i].0 && fields@[i].1@ == f[i].1,
                forall|i: int| 0 <= i < rest@.len() ==> (#[trigger] rest@[i]).0 == f[n - 1 - i].0 && rest@[i].1@ == f[n - 1 - i].1,
            decreases fields@.len(),
        {
            let p = fields.pop().unwrap();
            rest.push(p);
        }
        let mut i: usize = 0;
        while rest.len() > 0
            invariant
                n == f.len(),
                rest@.len() + i == n,
                forall|j: int| 0 <= j < rest@.len() ==> (#[trigger] rest@[j]).0 == f[n - 1 - j].0 && rest@[j].1@ == f[n - 1 - j].1,
                map_represents(m@, f.take(i as int)),
            decreases rest@.len(),
        {
            let p = rest.pop().unwrap();
            let (tag, value) = p;
            let ghost prev = m@;
            m.insert(tag.wire_value(), value);
            proof {
                let g = f.take(i as int + 1);
                assert(g.drop_last() =~= f.take(i as int));
                assert(g.last() == f[i as int]);
                assert forall|k: u32|
                    #![trigger m@.contains_key(k)]
                    #![trigger field_lookup(g, k)]
                    (m@.contains_key(k) <==> field_lookup(g, k) is Some) && (m@.contains_key(k) ==> m@[k]@ == field_lookup(g, k).unwrap()) by {
                    if k != tag.spec_wire_value() {
                        assert(prev.contains_key(k) <==> field_lookup(f.take(i as int), k) is Some);
                    }
                }
            }
            i = i + 1;
        }
        assert(f.take(n as int) =~= f);
        assert(map_model(m@) =~= fields_model(f));
        m
    }
}

pub proof fn lemma_encode_len(f: Fields)
    ensures
        spec_encode(f).len() == spec_encoded_size(f),
{
    lemma_tags_concat_len(f);
    lemma_offsets_concat_len(f, if f.len() == 0 { 1 } else { f.len() as int });
    if f.len() == 0 {
        assert(offsets_concat(f, 0) == Seq::<u8>::empty());
    }
}


/// The tag word of field `j` of a message of `n >= 2` fields.
pub open spec fn tag_word(b: Seq<u8>, n: int, j: int) -> int {
    le_u32_at(b, 4 * n + 4 * j)
}

/// The offset word of field `i`, `1 <= i < n`.
pub open spec fn offset_word(b: Seq<u8>, i: int) -> int {
    le_u32_at(b, 4 + 4 * (i - 1))
}

/// Where the value of field `j` starts within the value area.
pub open spec fn value_start(b: Seq<u8>, n: int, j: int) -> int {
    if j == 0 {
        0
    } else {
        offset_word(b, j)
    }
}

/// Where the value of field `j` ends within the value area.
pub open spec fn value_end(b: Seq<u8>, n: int, j: int) -> int {
    if j == n - 1 {
        b.len() - 8 * n
    } else {
        offset_word(b, j + 1)
    }
}

/// Field `j` of a message of `n >= 2` fields whose header fits in `b`.
pub open spec fn parse_field(b: Seq<u8>, n: int, j: int) -> Result<(Tag, Seq<u8>), Error> {
    let w = tag_word(b, n, j) as u32;
    match Tag::spec_from_wire(w) {
        None => Err(Error::InvalidTag(w)),
        Some(t) => {
            if j > 0 && w == tag_word(b, n, j - 1) {
                Err(Error::DuplicateTag(t))
            } else if j > 0 && w < tag_word(b, n, j - 1) {
                Err(Error::TagNotStrictlyIncreasing(t))
            } else {
                let start = value_start(b, n, j);
                let end = value_end(b, n, j);
                if j < n - 1 && end % 4 != 0 {
                    Err(Error::InvalidOffsetValue(end as u32))
                } else if end > b.len() - 8 * n || start > end {
                    Err(Error::InvalidValueLength(t, end as u32))
                } else {
                    Ok((t, b.subrange(8 * n + start, 8 * n + end)))
                }
            }
        },
    }
}

/// Fields `0..k` of a message of `n >= 2` fields, or the first error met.
pub open spec fn parse_fields(b: Seq<u8>, n: int, k: int) -> Result<Fields, Error>
    decreases k,
{
    if k <= 0 {
        Ok(Seq::empty())
    } else {
        match parse_fields(b, n, k - 1) {
            Err(e) => Err(e),
            Ok(fs) => match parse_field(b, n, k - 1) {
                Err(e) => Err(e),
                Ok(fld) => Ok(fs.push(fld)),
            },
        }
    }
}

/// The message that `b` encodes, or why `b` encodes none.
pub open spec fn spec_from_bytes(b: Seq<u8>) -> Result<Fields, Error> {
    if b.len() < 4 {
        Err(Error::MessageTooShort)
    } else if b.len() % 4 != 0 {
        Err(Error::InvalidAlignment(b.len() as u32))
    } else {
        let n = le_u32_at(b, 0);
        if n == 0 {
            Ok(Seq::empty())
        } else if n == 1 {
            if b.len() < 8 {
                Err(Error::MessageTooShort)
            } else {
                let w = le_u32_at(b, 4) as u32;
                match Tag::spec_from_wire(w) {
                    None => Err(Error::InvalidTag(w)),
                    Some(t) => Ok(seq![(t, b.subrange(8, b.len() as int))]),
                }
            }
        } else if n <= MAX_NUM_TAGS {
            if b.len() < 8 * n {
                Err(Error::MessageTooShort)
            } else {
                parse_fields(b, n, n)
            }
        } else {
            Err(Error::InvalidNumTags(n as u32))
        }
    }
}

/// Once parsing has failed, parsing further fields fails the same way.
pub proof fn lemma_parse_fields_err_sticks(b: Seq<u8>, n: int, j: int, k: int)
    requires
        0 <= j <= k,
        parse_fields(b, n, j) is Err,
    ensures
        parse_fields(b, n, k) == parse_fields(b, n, j),
    decreases k - j,
{
    if k > j {
        lemma_parse_fields_err_sticks(b, n, j, k - 1);
    }
}

/// The fields parsed so far have strictly increasing tags, the last of
/// which is the tag word just read.
pub proof fn lemma_parse_fields_sorted(b: Seq<u8>, n: int, k: int)
    requires
        0 <= k,
        parse_fields(b, n, k) is Ok,
    ensures
        parse_fields(b, n, k).unwrap().len() == k,
        fields_sorted(parse_fields(b, n, k).unwrap()),
        k > 0 ==> parse_fields(b, n, k).unwrap().last().0.spec_wire_value() == tag_word(b, n, k - 1) as u32,
    decreases k,
{
    if k > 0 {
        lemma_parse_fields_sorted(b, n, k - 1);
        let fs = parse_fields(b, n, k - 1).unwrap();
        let w = tag_word(b, n, k - 1) as u32;
        let t = parse_field(b, n, k - 1).unwrap().0;
        crate::tag::lemma_wire_value_roundtrip(t, w);
        if k > 1 {
            crate::bytes::lemma_le_u32_at_bound(b, 4 * n + 4 * (k - 2));
        }
        let g = fs.push(parse_field(b, n, k - 1).unwrap());
        assert forall|i: int, j: int| 0 <= i < j < g.len() implies #[trigger] g[i].0.spec_wire_value() < #[trigger] g[j].0.spec_wire_value() by {
            if j == g.len() - 1 && i < j {
                assert(g[i] == fs[i]);
                if i < fs.len() - 1 {
                    assert(fs[i].0.spec_wire_value() < fs.last().0.spec_wire_value());
                }
            }
        }
    }
}

/// The message that `bytes` encodes, as `spec_from_bytes` says.
pub open spec fn parse_result_matches(r: Result<RtMessage, Error>, s: Result<Fields, Error>) -> bool {
    match (r, s) {
        (Ok(m), Ok(f)) => m@ == f && m.wf(),
        (Err(e1), Err(e2)) => e1 == e2,
        _ => false,
    }
}

impl RtMessage {
    /// Parses the wire encoding of a message.
    pub fn from_bytes(bytes: &[u8]) -> (r: Result<RtMessage, Error>)
        ensures
            parse_result_matches(r, spec_from_bytes(bytes@)),
    {
        let len = bytes.len();
        if len < 4 {
            return Err(Error::MessageTooShort);
        }
        if len % 4 != 0 {
            return Err(Error::InvalidAlignment(len as u32));
        }
        let num_tags = read_u32_le(bytes, 0);
        if num_tags == 0 {
            let r = RtMessage::new();
            return Ok(r);
        } else if num_tags == 1 {
            if len < 8 {
                return Err(Error::MessageTooShort);
            }
            let w = read_u32_le(bytes, 4);
            match Tag::from_wire(w) {
                None => {
                    return Err(Error::InvalidTag(w));
                },
                Some(t) => {
                    let value = copy_range(bytes, 8, len);
                    let mut fields: Vec<(Tag, Vec<u8>)> = Vec::new();
                    fields.push((t, value));
                    let r = RtMessage { fields };
                    assert(r@ =~= seq![(t, bytes@.subrange(8, len as int))]);
                    return Ok(r);
                },
            }
        } else if num_tags > MAX_NUM_TAGS {
            return Err(Error::InvalidNumTags(num_tags));
        }
        let n = num_tags as usize;
        let header_end = 8 * n;
        if len < header_end {
            return Err(Error::MessageTooShort);
        }
        let values_len = len - header_end;
        let ghost b = bytes@;
        let mut fields: Vec<(Tag, Vec<u8>)> = Vec::new();
        let mut prev_word: u32 = 0;
        let mut j: usize = 0;
        while j < n
            invariant
                b == bytes@,
                len == b.len(),
                len % 4 == 0,
                2 <= n <= MAX_NUM_TAGS,
                n == le_u32_at(b, 0),
                header_end == 8 * n,
                header_end <= len,
                values_len == len - header_end,
                j <= n,
                parse_fields(b, n as int, j as int) is Ok,
                parse_fields(b, n as int, j as int).unwrap() == fields@.map_values(|p: (Tag, Vec<u8>)| (p.0, p.1@)),
                j > 0 ==> prev_word == tag_word(b, n as int, j as int - 1),
            decreases n - j,
        {
            proof {
                lemma_parse_fields_sorted(b, n as int, j as int);
                crate::bytes::lemma_le_u32_at_bound(b, 4 * n + 4 * j);
                if j > 0 {
                    crate::bytes::lemma_le_u32_at_bound(b, 4 + 4 * (j - 1));
                }
                if j + 1 < n {
                    crate::bytes::lemma_le_u32_at_bound(b, 4 + 4 * j);
                }
            }
            let w = read_u32_le(bytes, 4 * n + 4 * j);
            let tag = match Tag::from_wire(w) {
                None => {
                    assert(parse_field(b, n as int, j as int) == Err::<(Tag, Seq<u8>), Error>(Error::InvalidTag(w)));
                    assert(parse_fields(b, n as int, j as int + 1) == Err::<Fields, Error>(Error::InvalidTag(w)));
                    proof {
                        lemma_parse_fields_err_sticks(b, n as int, j as int + 1, n as int);
                    }
                    return Err(Error::InvalidTag(w));
                },
                Some(t) => t,
            };
            if j > 0 && w == prev_word {
                proof {
                    lemma_parse_fields_err_sticks(b, n as int, j as int + 1, n as int);
                }
                return Err(Error::DuplicateTag(tag));
            }
            if j > 0 && w < prev_word {
                proof {
                    lemma_parse_fields_err_sticks(b, n as int, j as int + 1, n as int);
                }
                return Err(Error::TagNotStrictlyIncreasing(tag));
            }
            let start: usize = if j == 0 {
                0
            } else {
                read_u32_le(bytes, 4 + 4 * (j - 1)) as usize
            };
            let end: usize = if j == n - 1 {
                values_len
            } else {
                read_u32_le(bytes, 4 + 4 * j) as usize
            };
            if j < n - 1 && end % 4 != 0 {
                assert(value_end(b, n as int, j as int) == end);
                assert(parse_field(b, n as int, j as int) == Err::<(Tag, Seq<u8>), Error>(Error::InvalidOffsetValue(end as u32)));
                proof {
                    lemma_parse_fields_err_sticks(b, n as int, j as int + 1, n as int);
                }
                return Err(Error::InvalidOffsetValue(end as u32));
            }
            if end > values_len || start > end {
                proof {
                    lemma_parse_fields_err_sticks(b, n as int, j as int + 1, n as int);
                }
                return Err(Error::InvalidValueLength(tag, end as u32));
            }
            let value = copy_range(bytes, header_end + start, header_end + end);
            let ghost prev_fields = fields@;
            fields.push((tag, value));
            assert(fields@.map_values(|p: (Tag, Vec<u8>)| (p.0, p.1@)) =~= prev_fields.map_values(
                |p: (Tag, Vec<u8>)| (p.0, p.1@),
            ).push((tag, b.subrange(header_end + start, header_end + end))));
            prev_word = w;
            j = j + 1;
        }
        proof {
            lemma_parse_fields_sorted(b, n as int, n as int);
        }
        let r = RtMessage { fields };
        Ok(r)
    }
}


/// A message whose encoding the parser gives back unchanged: tags strictly
/// increase, there are at most `MAX_NUM_TAGS` fields, every value length is a
/// multiple of four, and the encoding fits the 32-bit lengths of the format.
pub open spec fn roundtrips(f: Fields) -> bool {
    &&& fields_sorted(f)
    &&& f.len() <= MAX_NUM_TAGS
    &&& forall|i: int| 0 <= i < f.len() ==> (#[trigger] f[i]).1.len() % 4 == 0
    &&& encodable(f)
}

pub proof fn lemma_tags_concat_word(f: Fields, j: int)
    requires
        0 <= j < f.len(),
    ensures
        le_u32_at(tags_concat(f), 4 * j) == f[j].0.spec_wire_value(),
    decreases f.len(),
{
    lemma_tags_concat_len(f.drop_last());
    crate::bytes::lemma_le_u32_roundtrip(f.last().0.spec_wire_value());
    if j < f.len() - 1 {
        lemma_tags_concat_word(f.drop_last(), j);
    }
}

pub proof fn lemma_values_aligned(f: Fields, i: int)
    requires
        0 <= i <= f.len(),
        forall|k: int| 0 <= k < f.len() ==> (#[trigger] f[k]).1.len() % 4 == 0,
    ensures
        value_offset(f, i) % 4 == 0,
    decreases i,
{
    if i == 0 {
        assert(f.take(0) =~= Seq::<(Tag, Seq<u8>)>::empty());
    } else {
        lemma_values_aligned(f, i - 1);
        lemma_value_offset_step(f, i - 1);
    }
}

pub proof fn lemma_offsets_word(f: Fields, k: int, i: int)
    requires
        1 <= i < k <= f.len(),
        encodable(f),
    ensures
        le_u32_at(offsets_concat(f, k), 4 * (i - 1)) == value_offset(f, i),
    decreases k,
{
    lemma_offsets_concat_len(f, k - 1);
    lemma_values_concat_len_take(f, k - 1);
    crate::bytes::lemma_le_u32_roundtrip(value_offset(f, k - 1) as u32);
    if i < k - 1 {
        lemma_offsets_word(f, k - 1, i);
    }
}

/// The four parts of an encoding of `n >= 1` fields: count, offsets, tags, values.
pub proof fn lemma_encode_layout(f: Fields)
    requires
        f.len() >= 1,
    ensures
        ({
            let n = f.len() as int;
            let b = spec_encode(f);
            &&& b.len() == 8 * n + values_concat(f).len()
            &&& b.subrange(0, 4) == le_u32_bytes(n as u32)
            &&& b.subrange(4, 4 * n) == offsets_concat(f, n)
            &&& b.subrange(4 * n, 8 * n) == tags_concat(f)
            &&& b.subrange(8 * n, b.len() as int) == values_concat(f)
        }),
{
    let n = f.len() as int;
    let b = spec_encode(f);
    lemma_offsets_concat_len(f, n);
    lemma_tags_concat_len(f);
    assert(b.subrange(0, 4) =~= le_u32_bytes(n as u32));
    assert(b.subrange(4, 4 * n) =~= offsets_concat(f, n));
    assert(b.subrange(4 * n, 8 * n) =~= tags_concat(f));
    assert(b.subrange(8 * n, b.len() as int) =~= values_concat(f));
}

pub proof fn lemma_encode_tag_word(f: Fields, j: int)
    requires
        f.len() >= 1,
        0 <= j < f.len(),
    ensures
        tag_word(spec_encode(f), f.len() as int, j) == f[j].0.spec_wire_value(),
{
    let n = f.len() as int;
    let b = spec_encode(f);
    lemma_encode_layout(f);
    crate::bytes::lemma_le_u32_at_subrange(b, 4 * n, 8 * n, 4 * j);
    lemma_tags_concat_word(f, j);
}

pub proof fn lemma_encode_offset_word(f: Fields, i: int)
    requires
        encodable(f),
        1 <= i < f.len(),
    ensures
        offset_word(spec_encode(f), i) == value_offset(f, i),
{
    let n = f.len() as int;
    let b = spec_encode(f);
    lemma_encode_layout(f);
    crate::bytes::lemma_le_u32_at_subrange(b, 4, 4 * n, 4 * (i - 1));
    lemma_offsets_word(f, n, i);
}

pub proof fn lemma_encode_value(f: Fields, j: int)
    requires
        f.len() >= 1,
        0 <= j < f.len(),
    ensures
        value_offset(f, j + 1) <= values_concat(f).len(),
        value_offset(f, j) <= value_offset(f, j + 1),
        ({
            let n = f.len() as int;
            spec_encode(f).subrange(8 * n + value_offset(f, j), 8 * n + value_offset(f, j + 1))
                == f[j].1
        }),
{
    let n = f.len() as int;
    let b = spec_encode(f);
    let v = values_concat(f);
    lemma_encode_layout(f);
    lemma_value_offset_step(f, j);
    lemma_values_concat_len_take(f, j + 1);
    let s = value_offset(f, j) as int;
    let e = value_offset(f, j + 1) as int;
    assert(v.subrange(s, e) =~= f[j].1) by {
        assert(values_concat(f.take(j + 1)) == v.subrange(0, e));
        assert(values_concat(f.take(j + 1)).subrange(s, e) =~= f[j].1);
        assert(v.subrange(0, e).subrange(s, e) =~= v.subrange(s, e));
    }
    assert(b.subrange(8 * n + s, 8 * n + e) =~= b.subrange(8 * n, b.len() as int).subrange(s, e));
}

/// Field `j` of an encoding reads back as field `j` of the message.
pub proof fn lemma_parse_field_encode(f: Fields, j: int)
    requires
        roundtrips(f),
        f.len() >= 2,
        0 <= j < f.len(),
    ensures
        parse_field(spec_encode(f), f.len() as int, j) == Ok::<(Tag, Seq<u8>), Error>(f[j]),
{
    let n = f.len() as int;
    let b = spec_encode(f);
    lemma_encode_layout(f);
    lemma_encode_tag_word(f, j);
    crate::tag::lemma_wire_value_roundtrip(f[j].0, f[j].0.spec_wire_value());
    if j > 0 {
        lemma_encode_tag_word(f, j - 1);
        assert(f[j - 1].0.spec_wire_value() < f[j].0.spec_wire_value());
        lemma_encode_offset_word(f, j);
    } else {
        assert(f.take(0) =~= Seq::<(Tag, Seq<u8>)>::empty());
    }
    if j < n - 1 {
        lemma_encode_offset_word(f, j + 1);
        lemma_values_aligned(f, j + 1);
    } else {
        assert(f.take(n) =~= f);
    }
    lemma_encode_value(f, j);
    assert(value_start(b, n, j) == value_offset(f, j));
    assert(value_end(b, n, j) == value_offset(f, j + 1));
}

pub proof fn lemma_parse_fields_encode(f: Fields, k: int)
    requires
        roundtrips(f),
        f.len() >= 2,
        0 <= k <= f.len(),
    ensures
        parse_fields(spec_encode(f), f.len() as int, k) == Ok::<Fields, Error>(f.take(k)),
    decreases k,
{
    if k == 0 {
        assert(f.take(0) =~= Seq::<(Tag, Seq<u8>)>::empty());
    } else {
        lemma_parse_fields_encode(f, k - 1);
        lemma_parse_field_encode(f, k - 1);
        assert(f.take(k - 1).push(f[k - 1]) =~= f.take(k));
    }
}

/// The first word of an encoding is its field count, and the encoding is aligned.
pub proof fn lemma_encode_header(f: Fields)
    requires
        roundtrips(f),
    ensures
        spec_encode(f).len() >= 4,
        spec_encode(f).len() % 4 == 0,
        le_u32_at(spec_encode(f), 0) == f.len(),
{
    let n = f.len() as int;
    let b = spec_encode(f);
    lemma_encode_len(f);
    lemma_values_aligned(f, n);
    assert(f.take(n) =~= f);
    crate::bytes::lemma_le_u32_roundtrip(n as u32);
    assert(b.subrange(0, 4) =~= le_u32_bytes(n as u32));
    crate::bytes::lemma_le_u32_at_subrange(b, 0, 4, 0);
}

proof fn lemma_parse_encode_single(f: Fields)
    requires
        roundtrips(f),
        f.len() == 1,
    ensures
        spec_from_bytes(spec_encode(f)) == Ok::<Fields, Error>(f),
{
    let b = spec_encode(f);
    lemma_encode_header(f);
    lemma_encode_layout(f);
    lemma_encode_tag_word(f, 0);
    crate::tag::lemma_wire_value_roundtrip(f[0].0, f[0].0.spec_wire_value());
    assert(f.drop_last() =~= Seq::<(Tag, Seq<u8>)>::empty());
    assert(values_concat(Seq::<(Tag, Seq<u8>)>::empty()) =~= Seq::<u8>::empty());
    assert(values_concat(f) =~= f[0].1);
    assert(seq![(f[0].0, b.subrange(8, b.len() as int))] =~= f);
}

proof fn lemma_parse_encode_multi(f: Fields)
    requires
        roundtrips(f),
        f.len() >= 2,
    ensures
        spec_from_bytes(spec_encode(f)) == Ok::<Fields, Error>(f),
{
    let n = f.len() as int;
    lemma_encode_header(f);
    lemma_encode_layout(f);
    lemma_parse_fields_encode(f, n);
    assert(f.take(n) =~= f);
}

/// Parsing the encoding of a message gives the message back.
pub proof fn lemma_parse_encode(f: Fields)
    requires
        roundtrips(f),
    ensures
        spec_from_bytes(spec_encode(f)) == Ok::<Fields, Error>(f),
{
    if f.len() == 0 {
        lemma_encode_header(f);
        assert(f =~= Seq::<(Tag, Seq<u8>)>::empty());
    } else if f.len() == 1 {
        lemma_parse_encode_single(f);
    } else {
        lemma_parse_encode_multi(f);
    }
}

} // verus!
