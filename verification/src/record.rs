//! The layout of an arena: a four-byte header that holds the number of
//! shards, then one record per text, each a four-byte length and the text in
//! UTF-8. All numbers stand in the byte order of the machine.
use vstd::endian::*;
use vstd::prelude::*;
use vstd::utf8::*;

verus! {

/// The error of [`std::str::from_utf8`].
#[verifier::external_type_specification]
#[verifier::external_body]
pub struct ExUtf8Error(std::str::Utf8Error);

/// [`std::str::from_utf8`]: succeeds exactly on well-formed UTF-8, and gives
/// the text that the bytes spell.
pub assume_specification[ std::str::from_utf8 ](v: &[u8]) -> (r: Result<&str, std::str::Utf8Error>)
    ensures
        r is Ok <==> valid_utf8(v@),
        r matches Ok(s) ==> s@ == decode_utf8(v@),
;

/// [`u32::to_ne_bytes`]: the four bytes of a number, in the byte order of the machine.
#[verifier::external_body]
pub(crate) fn u32_to_bytes(x: u32) -> (r: [u8; 4])
    ensures
        r@ == u32_bytes(x),
{
    x.to_ne_bytes()
}

/// [`u32::from_ne_bytes`]: the number that four bytes hold, in the byte order of the machine.
#[verifier::external_body]
pub(crate) fn u32_from_bytes(bytes: [u8; 4]) -> (r: u32)
    ensures
        r == u32_value(bytes@),
{
    u32::from_ne_bytes(bytes)
}

/// The bytes of `x`, least significant first.
pub open spec fn u32_little_endian(x: u32) -> Seq<u8> {
    seq![
        (x % 0x100) as u8,
        (x / 0x100 % 0x100) as u8,
        (x / 0x1_0000 % 0x100) as u8,
        (x / 0x100_0000) as u8,
    ]
}

/// The bytes of `x` in the byte order of the machine.
pub open spec fn u32_bytes(x: u32) -> Seq<u8> {
    match endianness() {
        Endian::Little => u32_little_endian(x),
        Endian::Big => u32_little_endian(x).reverse(),
    }
}

/// The number whose bytes, least significant first, are `b`.
pub open spec fn u32_of_little_endian(b: Seq<u8>) -> u32 {
    (b[0] + 0x100 * b[1] + 0x1_0000 * b[2] + 0x100_0000 * b[3]) as u32
}

/// The number whose bytes, in the byte order of the machine, are `b`.
pub open spec fn u32_value(b: Seq<u8>) -> u32 {
    match endianness() {
        Endian::Little => u32_of_little_endian(b),
        Endian::Big => u32_of_little_endian(b.reverse()),
    }
}

/// A number is what its own bytes hold.
pub proof fn u32_round_trip(x: u32)
    ensures
        u32_bytes(x).len() == 4,
        u32_value(u32_bytes(x)) == x,
{
    let b = u32_little_endian(x);
    assert(b.reverse().reverse() =~= b);
    assert(x == x % 0x100 + 0x100 * (x / 0x100 % 0x100) + 0x1_0000 * (x / 0x1_0000 % 0x100)
        + 0x100_0000 * (x / 0x100_0000)) by (bit_vector);
}

/// The bytes of a number are its digits to base 256, the least significant
/// first or last, as the machine has it, and they hold that number alone.
pub proof fn u32_bytes_are_digits(x: u32, b: Seq<u8>)
    ensures
        u32_bytes(x).len() == 4,
        endianness() is Little ==> x == u32_bytes(x)[0] + 0x100 * u32_bytes(x)[1] + 0x1_0000
            * u32_bytes(x)[2] + 0x100_0000 * u32_bytes(x)[3],
        endianness() is Big ==> x == u32_bytes(x)[3] + 0x100 * u32_bytes(x)[2] + 0x1_0000
            * u32_bytes(x)[1] + 0x100_0000 * u32_bytes(x)[0],
        b.len() == 4 && endianness() is Little ==> u32_value(b) == b[0] + 0x100 * b[1] + 0x1_0000
            * b[2] + 0x100_0000 * b[3],
        b.len() == 4 && endianness() is Big ==> u32_value(b) == b[3] + 0x100 * b[2] + 0x1_0000
            * b[1] + 0x100_0000 * b[0],
        u32_value(u32_bytes(x)) == x,
{
    u32_round_trip(x);
    assert(x == x % 0x100 + 0x100 * (x / 0x100 % 0x100) + 0x1_0000 * (x / 0x1_0000 % 0x100)
        + 0x100_0000 * (x / 0x100_0000)) by (bit_vector);
}

/// The bytes of the record that starts at `offset`, without its length; none
/// where the record does not lie within `bytes`.
pub open spec fn record_at(bytes: Seq<u8>, offset: int) -> Option<Seq<u8>> {
    if offset < 0 || offset + 4 > bytes.len() {
        None
    } else {
        let len = u32_value(bytes.subrange(offset, offset + 4));
        if offset + 4 + len > bytes.len() {
            None
        } else {
            Some(bytes.subrange(offset + 4, offset + 4 + len))
        }
    }
}

/// The text that a record holds; none where it is not well-formed UTF-8.
pub open spec fn record_text(record: Seq<u8>) -> Option<Seq<char>> {
    if valid_utf8(record) {
        Some(decode_utf8(record))
    } else {
        None
    }
}

/// The text of the record that starts at `offset`; none where there is no
/// such record or where it is not well-formed UTF-8.
pub open spec fn text_at(bytes: Seq<u8>, offset: int) -> Option<Seq<char>> {
    match record_at(bytes, offset) {
        Some(record) => record_text(record),
        None => None,
    }
}

/// The texts of the records from `cursor` on, up to the first record that
/// does not lie within `bytes`. Records that are not well-formed UTF-8 are
/// passed over.
pub open spec fn texts_from(bytes: Seq<u8>, cursor: int) -> Seq<Seq<char>>
    decreases bytes.len() - cursor,
{
    match record_at(bytes, cursor) {
        Some(record) => {
            let rest = texts_from(bytes, cursor + 4 + record.len());
            match record_text(record) {
                Some(text) => seq![text] + rest,
                None => rest,
            }
        },
        None => Seq::empty(),
    }
}

/// The record for a text: the length of its UTF-8 form, then that form.
pub open spec fn record(text: Seq<char>) -> Seq<u8> {
    u32_bytes(encode_utf8(text).len() as u32) + encode_utf8(text)
}

/// The records for `texts`, one after the other.
pub open spec fn records(texts: Seq<Seq<char>>) -> Seq<u8>
    decreases texts.len(),
{
    if texts.len() == 0 {
        Seq::empty()
    } else {
        records(texts.drop_last()) + record(texts.last())
    }
}

/// The arena of an interner with `shard_count` shards that holds `texts`, in
/// the order in which they were interned.
pub open spec fn arena(shard_count: int, texts: Seq<Seq<char>>) -> Seq<u8> {
    u32_bytes(shard_count as u32) + records(texts)
}

/// How many bytes the arena of `texts` takes up.
pub open spec fn arena_len(texts: Seq<Seq<char>>) -> nat {
    4 + records(texts).len()
}

/// Where in the arena the record of `texts[i]` starts.
pub open spec fn text_offset(texts: Seq<Seq<char>>, i: int) -> nat {
    arena_len(texts.take(i))
}

pub proof fn lemma_arena_len(shard_count: int, texts: Seq<Seq<char>>)
    ensures
        arena(shard_count, texts).len() == arena_len(texts),
{
    u32_round_trip(shard_count as u32);
}

pub proof fn lemma_record_len(text: Seq<char>)
    ensures
        record(text).len() == 4 + encode_utf8(text).len(),
{
    u32_round_trip(encode_utf8(text).len() as u32);
}

pub proof fn lemma_records_push(texts: Seq<Seq<char>>, text: Seq<char>)
    ensures
        records(texts.push(text)) == records(texts) + record(text),
        arena_len(texts.push(text)) == arena_len(texts) + 4 + encode_utf8(text).len(),
{
    assert(texts.push(text).drop_last() =~= texts);
    lemma_record_len(text);
}

proof fn lemma_records_prepend_len(text: Seq<char>, rest: Seq<Seq<char>>)
    ensures
        records(seq![text] + rest).len() == 4 + encode_utf8(text).len() + records(rest).len(),
    decreases rest.len(),
{
    if rest.len() == 0 {
        assert(seq![text] + rest =~= Seq::<Seq<char>>::empty().push(text));
        lemma_records_push(Seq::empty(), text);
    } else {
        lemma_records_prepend_len(text, rest.drop_last());
        assert(seq![text] + rest =~= (seq![text] + rest.drop_last()).push(rest.last()));
        lemma_records_push(seq![text] + rest.drop_last(), rest.last());
        assert(rest =~= rest.drop_last().push(rest.last()));
        lemma_records_push(rest.drop_last(), rest.last());
    }
}

/// The texts of some bytes take no more room than the bytes.
pub proof fn lemma_texts_from_len(bytes: Seq<u8>, cursor: int)
    requires
        0 <= cursor,
    ensures
        texts_from(bytes, cursor).len() == 0 || records(texts_from(bytes, cursor)).len()
            <= bytes.len() - cursor,
    decreases bytes.len() - cursor,
{
    if let Some(record) = record_at(bytes, cursor) {
        let next = cursor + 4 + record.len();
        lemma_texts_from_len(bytes, next);
        if let Some(text) = record_text(record) {
            decode_utf8_encode_utf8(record);
            lemma_records_prepend_len(text, texts_from(bytes, next));
        }
    }
}

/// Appending a text moves no record.
pub proof fn lemma_text_offset_push(texts: Seq<Seq<char>>, text: Seq<char>, i: int)
    requires
        0 <= i <= texts.len(),
    ensures
        text_offset(texts.push(text), i) == text_offset(texts, i),
{
    assert(texts.push(text).take(i) =~= texts.take(i));
}

/// The record of `texts[i]` stands at its offset.
pub proof fn lemma_records_subrange(texts: Seq<Seq<char>>, i: int)
    requires
        0 <= i < texts.len(),
    ensures
        text_offset(texts, i + 1) == text_offset(texts, i) + 4 + encode_utf8(texts[i]).len(),
        text_offset(texts, i + 1) <= arena_len(texts),
        records(texts).subrange(text_offset(texts, i) - 4, text_offset(texts, i + 1) - 4)
            == record(texts[i]),
    decreases texts.len(),
{
    let last = texts.len() - 1;
    assert(texts.take(i + 1) =~= texts.take(i).push(texts[i]));
    lemma_records_push(texts.take(i), texts[i]);
    assert(texts.drop_last().push(texts.last()) =~= texts);
    lemma_records_push(texts.drop_last(), texts.last());
    let start = text_offset(texts, i) - 4;
    let end = text_offset(texts, i + 1) - 4;
    lemma_record_len(texts[i]);
    if i == last {
        assert(texts.take(i) =~= texts.drop_last());
        assert(texts.take(i + 1) =~= texts);
        assert(records(texts).subrange(start, end) =~= record(texts[i]));
    } else {
        lemma_records_subrange(texts.drop_last(), i);
        assert(texts.drop_last().take(i) =~= texts.take(i));
        assert(texts.drop_last().take(i + 1) =~= texts.take(i + 1));
        assert(records(texts).subrange(start, end) =~= records(texts.drop_last()).subrange(
            start,
            end,
        ));
    }
}

/// What stands in an arena at the offset of `texts[i]` is `texts[i]`.
pub proof fn lemma_arena_text(shard_count: int, texts: Seq<Seq<char>>, i: int)
    requires
        0 <= i < texts.len(),
        arena_len(texts) <= u32::MAX,
    ensures
        record_at(arena(shard_count, texts), text_offset(texts, i) as int) == Some(
            encode_utf8(texts[i]),
        ),
        text_at(arena(shard_count, texts), text_offset(texts, i) as int) == Some(texts[i]),
{
    let bytes = arena(shard_count, texts);
    let offset = text_offset(texts, i) as int;
    let text = encode_utf8(texts[i]);
    lemma_records_subrange(texts, i);
    lemma_arena_len(shard_count, texts);
    u32_round_trip(shard_count as u32);
    u32_round_trip(text.len() as u32);
    let rec = record(texts[i]);
    assert(bytes.subrange(offset, offset + 4 + text.len()) =~= rec) by {
        assert(bytes.subrange(offset, offset + 4 + text.len()) =~= records(texts).subrange(
            offset - 4,
            offset + text.len(),
        ));
    }
    assert(bytes.subrange(offset, offset + 4) =~= rec.subrange(0, 4));
    assert(rec.subrange(0, 4) =~= u32_bytes(text.len() as u32));
    assert(bytes.subrange(offset + 4, offset + 4 + text.len()) =~= rec.subrange(
        4,
        4 + text.len() as int,
    ));
    assert(rec.subrange(4, 4 + text.len() as int) =~= text);
    encode_utf8_valid_utf8(texts[i]);
    encode_utf8_decode_utf8(texts[i]);
}

/// Reading an arena record by record gives the texts it was made of.
pub proof fn lemma_arena_texts_from(shard_count: int, texts: Seq<Seq<char>>, i: int)
    requires
        0 <= i <= texts.len(),
        arena_len(texts) <= u32::MAX,
    ensures
        texts_from(arena(shard_count, texts), text_offset(texts, i) as int) == texts.skip(i),
    decreases texts.len() - i,
{
    let bytes = arena(shard_count, texts);
    lemma_arena_len(shard_count, texts);
    if i == texts.len() {
        assert(texts.take(i) =~= texts);
        assert(texts.skip(i) =~= Seq::empty());
    } else {
        lemma_arena_text(shard_count, texts, i);
        lemma_records_subrange(texts, i);
        lemma_arena_texts_from(shard_count, texts, i + 1);
        encode_utf8_valid_utf8(texts[i]);
        encode_utf8_decode_utf8(texts[i]);
        assert(texts.skip(i) =~= seq![texts[i]] + texts.skip(i + 1));
    }
}

/// Loading the texts of an arena gives back the texts it was made of.
pub proof fn arena_round_trip(shard_count: int, texts: Seq<Seq<char>>)
    requires
        arena_len(texts) <= u32::MAX,
    ensures
        texts_from(arena(shard_count, texts), 4) == texts,
{
    lemma_arena_texts_from(shard_count, texts, 0);
    assert(texts.take(0) =~= Seq::empty());
    assert(texts.skip(0) =~= texts);
}

/// A record is a length and as many bytes as it says; there is one exactly
/// where both lie within the bytes, and it has a text exactly where it is
/// well-formed UTF-8.
pub proof fn records_are_length_and_body(bytes: Seq<u8>, offset: int)
    requires
        0 <= offset,
    ensures
        record_at(bytes, offset) is Some <==> offset + 4 <= bytes.len() && offset + 4 + u32_value(
            bytes.subrange(offset, offset + 4),
        ) <= bytes.len(),
        record_at(bytes, offset) matches Some(body) ==> body == bytes.subrange(
            offset + 4,
            offset + 4 + u32_value(bytes.subrange(offset, offset + 4)),
        ),
        text_at(bytes, offset) is Some <==> (record_at(bytes, offset) matches Some(body)
            && valid_utf8(body)),
        text_at(bytes, offset) matches Some(text) ==> encode_utf8(text) == bytes.subrange(
            offset + 4,
            offset + 4 + u32_value(bytes.subrange(offset, offset + 4)),
        ),
{
    if text_at(bytes, offset) is Some {
        decode_utf8_encode_utf8(record_at(bytes, offset)->0);
    }
}

/// Reading goes on behind each record: its text comes first where it is
/// well-formed UTF-8, what follows comes in any case, and there is no more
/// where the bytes hold no whole record.
pub proof fn texts_are_read_one_by_one(bytes: Seq<u8>, cursor: int)
    requires
        0 <= cursor,
    ensures
        cursor + 4 > bytes.len() ==> texts_from(bytes, cursor).len() == 0,
        cursor + 4 <= bytes.len() ==> {
            let end = cursor + 4 + u32_value(bytes.subrange(cursor, cursor + 4));
            let body = bytes.subrange(cursor + 4, end);
            &&& end > bytes.len() ==> texts_from(bytes, cursor).len() == 0
            &&& end <= bytes.len() && valid_utf8(body) ==> {
                &&& texts_from(bytes, cursor).len() == 1 + texts_from(bytes, end).len()
                &&& encode_utf8(texts_from(bytes, cursor)[0]) == body
                &&& texts_from(bytes, cursor).skip(1) == texts_from(bytes, end)
            }
            &&& end <= bytes.len() && !valid_utf8(body) ==> texts_from(bytes, cursor)
                == texts_from(bytes, end)
        },
{
    if cursor + 4 <= bytes.len() {
        let end = cursor + 4 + u32_value(bytes.subrange(cursor, cursor + 4));
        let body = bytes.subrange(cursor + 4, end);
        if end <= bytes.len() {
            assert(record_at(bytes, cursor) == Some(body));
            assert(cursor + 4 + body.len() == end);
            if valid_utf8(body) {
                decode_utf8_encode_utf8(body);
                assert((seq![decode_utf8(body)] + texts_from(bytes, end)).skip(1) =~= texts_from(
                    bytes,
                    end,
                ));
            }
        }
    }
}

/// An arena starts with the number of shards, and every text adds its length
/// and its UTF-8 form behind what was there; its offset is where that starts.
pub proof fn arenas_grow_by_length_and_text(
    shard_count: int,
    texts: Seq<Seq<char>>,
    text: Seq<char>,
)
    ensures
        arena(shard_count, Seq::empty()) == u32_bytes(shard_count as u32),
        arena(shard_count, texts.push(text)) == arena(shard_count, texts) + u32_bytes(
            encode_utf8(text).len() as u32,
        ) + encode_utf8(text),
        arena_len(texts) == arena(shard_count, texts).len(),
        text_offset(texts.push(text), texts.len() as int) == arena(shard_count, texts).len(),
        forall|i: int|
            0 <= i < texts.len() ==> #[trigger] text_offset(texts.push(text), i) == text_offset(
                texts,
                i,
            ),
{
    lemma_arena_len(shard_count, texts);
    lemma_records_push(texts, text);
    assert(arena(shard_count, Seq::empty()) =~= u32_bytes(shard_count as u32));
    assert(texts.push(text).drop_last() =~= texts);
    assert(arena(shard_count, texts.push(text)) =~= arena(shard_count, texts) + u32_bytes(
        encode_utf8(text).len() as u32,
    ) + encode_utf8(text));
    assert(texts.push(text).take(texts.len() as int) =~= texts);
    assert forall|i: int| 0 <= i < texts.len() implies #[trigger] text_offset(texts.push(text), i)
        == text_offset(texts, i) by {
        assert(texts.push(text).take(i) =~= texts.take(i));
    }
}

/// Reads the four-byte number at `offset`.
pub(crate) fn read_u32(bytes: &[u8], offset: usize) -> (value: u32)
    requires
        offset + 4 <= bytes@.len(),
    ensures
        value == u32_value(bytes@.subrange(offset as int, offset + 4)),
{
    let field: [u8; 4] = [bytes[offset], bytes[offset + 1], bytes[offset + 2], bytes[offset + 3]];
    assert(field@ =~= bytes@.subrange(offset as int, offset + 4));
    u32_from_bytes(field)
}

/// Reads the record that starts at `offset`.
pub(crate) fn read_record(bytes: &[u8], offset: usize) -> (result: Option<&[u8]>)
    ensures
        match result {
            Some(r) => record_at(bytes@, offset as int) == Some(r@),
            None => record_at(bytes@, offset as int) is None,
        },
{
    if bytes.len() < 4 || offset > bytes.len() - 4 {
        return None;
    }
    let len: u32 = read_u32(bytes, offset);
    let room: usize = bytes.len() - 4 - offset;
    if len as u64 > room as u64 {
        return None;
    }
    let start: usize = offset + 4;
    let end: usize = start + len as usize;
    Some(vstd::slice::slice_subrange(bytes, start, end))
}

/// Reads the text of the record that starts at `offset`.
pub(crate) fn read_text(bytes: &[u8], offset: usize) -> (result: Option<&str>)
    ensures
        match result {
            Some(s) => text_at(bytes@, offset as int) == Some(s@),
            None => text_at(bytes@, offset as int) is None,
        },
{
    match read_record(bytes, offset) {
        Some(rec) => match std::str::from_utf8(rec) {
            Ok(text) => Some(text),
            Err(_) => None,
        },
        None => None,
    }
}

/// The number that stands for the first four bytes of a text; bytes that the
/// text does not have count as zero.
pub open spec fn prefix4(bytes: Seq<u8>) -> u32 {
    u32_value(
        Seq::new(
            4,
            |i: int|
                if i < bytes.len() {
                    bytes[i]
                } else {
                    0
                },
        ),
    )
}

/// The number that stands for the first four bytes of a text.
pub(crate) fn read_prefix4(bytes: &[u8]) -> (prefix: u32)
    ensures
        prefix == prefix4(bytes@),
{
    let mut buf: [u8; 4] = [0, 0, 0, 0];
    let n: usize = if bytes.len() < 4 {
        bytes.len()
    } else {
        4
    };
    let mut i: usize = 0;
    while i < n
        invariant
            n <= 4,
            n <= bytes@.len(),
            i <= n,
            buf@.len() == 4,
            forall|j: int| 0 <= j < i ==> buf@[j] == bytes@[j],
            forall|j: int| i <= j < 4 ==> buf@[j] == 0,
        decreases n - i,
    {
        buf[i] = bytes[i];
        i = i + 1;
    }
    assert(buf@ =~= Seq::new(
        4,
        |i: int|
            if i < bytes@.len() {
                bytes@[i]
            } else {
                0
            },
    ));
    u32_from_bytes(buf)
}

} // verus!
