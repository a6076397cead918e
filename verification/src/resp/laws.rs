//! What holds of the codec as a whole: a frame that is written and read back
//! is the same frame, whatever follows it in the buffer, and a frame whose
//! writing was cut short is answered with "not complete".

use crate::resp::decimal::{
    all_digits, digits, digits_value, is_digit, lemma_digits_value, lemma_parse_digits,
    lemma_parse_signed_text, parse_int, signed_text,
};
use crate::resp::decode::{
    after, read_array, read_entries, read_frame, read_frames, read_map, read_set,
};
use crate::resp::double::lemma_double_text_crlf_free;
use crate::resp::frame::{one_line, well_formed, wire, wire_all, wire_entries, Frame};
use crate::resp::mapping::{
    content, insert_entry, key_lt, lemma_insert_at_end, lemma_sorted_same_content, sorted,
};
use crate::resp::text::{holds_byte, is_ascii_bytes, lemma_ascii_byte_in_text, lemma_ascii_is_utf8};
use crate::resp::{
    array, boolean, bulk_body, bulk_error, bulk_string, collection, count_line, crlf_free, double,
    header, integer, lemma_line_cut_short, lemma_line_field_of_wire, line_end, line_text,
    line_wire, mapping, null, simple_error, simple_string, DecodeError, CR, LF,
};
use vstd::prelude::*;
use vstd::utf8::{encode_utf8, encode_utf8_decode_utf8, encode_utf8_valid_utf8};

verus! {

/// The digits of a number are ASCII, and none is a line ending.
pub proof fn lemma_digits_plain(n: nat)
    ensures
        is_ascii_bytes(digits(n)),
        crlf_free(digits(n)),
{
    lemma_digits_value(n);
    let d = digits(n);
    assert forall|i: int| 0 <= i < d.len() implies #[trigger] d[i] < 128 by {
        assert(is_digit(d[i]));
    }
    assert forall|i: int| 0 <= i < d.len() implies #[trigger] d[i] != CR && d[i] != LF by {
        assert(is_digit(d[i]));
    }
}

/// The text of a signed integer is ASCII, and none of it is a line ending.
pub proof fn lemma_signed_text_plain(v: int)
    ensures
        is_ascii_bytes(signed_text(v)),
        crlf_free(signed_text(v)),
{
    let n: nat = if v < 0 {
        (-v) as nat
    } else {
        v as nat
    };
    lemma_digits_plain(n);
    let t = signed_text(v);
    let d = digits(n);
    assert forall|i: int| 0 <= i < t.len() implies #[trigger] t[i] < 128 by {
        if i > 0 {
            assert(t[i] == d[i - 1]);
        }
    }
    assert forall|i: int| 0 <= i < t.len() implies #[trigger] t[i] != CR && t[i] != LF by {
        if i > 0 {
            assert(t[i] == d[i - 1]);
        }
    }
}

/// The header line that announces a number is read as that number, whatever
/// follows it.
pub proof fn lemma_header_of_count(prefix: u8, n: nat, tail: Seq<u8>)
    requires
        prefix != CR,
        n <= i64::MAX,
    ensures
        header(count_line(prefix, n) + tail) == Ok::<(i64, int), DecodeError>(
            (n as i64, count_line(prefix, n).len() as int),
        ),
        count_line(prefix, n).len() == digits(n).len() + 3,
{
    lemma_digits_plain(n);
    lemma_line_field_of_wire(prefix, digits(n), tail);
    lemma_ascii_is_utf8(digits(n));
    lemma_parse_digits(n);
}

/// The text `-1`.
pub open spec fn minus_one() -> Seq<u8> {
    seq![45u8, 49u8]
}

/// The header line `-1` is read as the number -1, whatever follows it.
pub proof fn lemma_header_of_minus_one(prefix: u8, tail: Seq<u8>)
    requires
        prefix != CR,
    ensures
        header(line_wire(prefix, minus_one()) + tail) == Ok::<(i64, int), DecodeError>((-1i64, 5)),
{
    let field = minus_one();
    assert(crlf_free(field));
    assert(is_ascii_bytes(field));
    lemma_line_field_of_wire(prefix, field, tail);
    lemma_ascii_is_utf8(field);
    let digit = field.skip(1);
    assert(digit =~= seq![49u8]);
    assert(digit.drop_last() =~= Seq::<u8>::empty());
    assert(digits_value(digit.drop_last()) == 0);
    assert(digits_value(digit) == 1);
    assert(all_digits(digit));
    assert(parse_int(field) == Some(-1int));
}

/// A header line cut short is not complete.
pub proof fn lemma_header_cut_short(prefix: u8, field: Seq<u8>, k: int)
    requires
        prefix != CR,
        crlf_free(field),
        0 <= k < line_wire(prefix, field).len(),
    ensures
        header(line_wire(prefix, field).take(k)) == Err::<(i64, int), DecodeError>(
            DecodeError::NotComplete,
        ),
{
    lemma_line_cut_short(prefix, field, k);
}

/// The bytes of a text of one line hold neither a carriage return nor a line
/// feed.
pub proof fn lemma_one_line_bytes(text: Seq<char>)
    requires
        one_line(text),
    ensures
        crlf_free(encode_utf8(text)),
{
    lemma_ascii_byte_in_text(text, '\r');
    lemma_ascii_byte_in_text(text, '\n');
    let bytes = encode_utf8(text);
    assert forall|i: int| 0 <= i < bytes.len() implies #[trigger] bytes[i] != CR && bytes[i]
        != LF by {
        if bytes[i] == CR {
            assert(holds_byte(bytes, '\r' as u8));
            let j = choose|j: int| 0 <= j < text.len() && #[trigger] text[j] == '\r';
        }
        if bytes[i] == LF {
            assert(holds_byte(bytes, '\n' as u8));
            let j = choose|j: int| 0 <= j < text.len() && #[trigger] text[j] == '\n';
        }
    }
}

/// A line of text that is written and read back is the same text.
pub proof fn lemma_line_text_of_wire(prefix: u8, text: Seq<char>, tail: Seq<u8>)
    requires
        prefix != CR,
        one_line(text),
    ensures
        line_text(line_wire(prefix, encode_utf8(text)) + tail) == Ok::<Seq<char>, DecodeError>(
            text,
        ),
{
    lemma_one_line_bytes(text);
    lemma_line_field_of_wire(prefix, encode_utf8(text), tail);
    encode_utf8_valid_utf8(text);
    encode_utf8_decode_utf8(text);
}

/// A bulk payload that is written after its header and read back is the same.
pub proof fn lemma_bulk_of_wire(prefix: u8, data: Seq<u8>, tail: Seq<u8>, what: Seq<char>)
    requires
        prefix != CR,
        data.len() <= i64::MAX,
    ensures
        header(count_line(prefix, data.len()) + data + line_end() + tail) == Ok::<
            (i64, int),
            DecodeError,
        >((data.len() as i64, count_line(prefix, data.len()).len() as int)),
        bulk_body(
            count_line(prefix, data.len()) + data + line_end() + tail,
            count_line(prefix, data.len()).len() as int,
            data.len() as int,
            what,
        ) == Ok::<Seq<u8>, DecodeError>(data),
{
    let head = count_line(prefix, data.len());
    let buf = head + data + line_end() + tail;
    lemma_header_of_count(prefix, data.len(), data + line_end() + tail);
    assert(buf =~= head + (data + line_end() + tail));
    let next = head.len() as int;
    assert(buf[next + data.len()] == CR);
    assert(buf[next + data.len() + 1] == LF);
    assert(buf.subrange(next, next + data.len()) =~= data);
}

/// A bulk frame cut short is not complete.
pub proof fn lemma_bulk_cut_short(prefix: u8, data: Seq<u8>, k: int, what: Seq<char>)
    requires
        prefix != CR,
        data.len() <= i64::MAX,
        0 <= k < (count_line(prefix, data.len()) + data + line_end()).len(),
    ensures
        ({
            let buf = (count_line(prefix, data.len()) + data + line_end()).take(k);
            match header(buf) {
                Err(e) => e == DecodeError::NotComplete,
                Ok((len, next)) => len == data.len() && bulk_body(buf, next, len as int, what)
                    == Err::<Seq<u8>, DecodeError>(DecodeError::NotComplete),
            }
        }),
{
    let head = count_line(prefix, data.len());
    let whole = head + data + line_end();
    let buf = whole.take(k);
    lemma_digits_plain(data.len());
    if k < head.len() {
        assert(buf =~= head.take(k));
        lemma_header_cut_short(prefix, digits(data.len()), k);
    } else {
        let rest = (data + line_end()).take(k - head.len());
        assert(buf =~= head + rest);
        lemma_header_of_count(prefix, data.len(), rest);
    }
}

/// Whether every frame of `items` is well formed.
pub open spec fn all_well_formed(items: Seq<Frame>) -> bool {
    forall|i: int| 0 <= i < items.len() ==> well_formed(#[trigger] items[i])
}

/// Whether every entry of `entries` has a key of one line and a well-formed
/// value.
pub open spec fn entries_well_formed(entries: Seq<(Seq<char>, Frame)>) -> bool {
    forall|i: int|
        0 <= i < entries.len() ==> one_line((#[trigger] entries[i]).0) && well_formed(entries[i].1)
}

/// Whether every key of `acc` stands before every key of `entries`.
pub open spec fn keys_before(
    acc: Seq<(Seq<char>, Frame)>,
    entries: Seq<(Seq<char>, Frame)>,
) -> bool {
    forall|i: int, j: int|
        0 <= i < acc.len() && 0 <= j < entries.len() ==> key_lt(
            (#[trigger] acc[i]).0,
            (#[trigger] entries[j]).0,
        )
}

/// A boolean that is written and read back is the same.
pub proof fn lemma_bool_round_trip(b: bool, tail: Seq<u8>)
    ensures
        boolean::read_of(boolean::wire_of(b) + tail) == Ok::<bool, DecodeError>(b),
        (boolean::wire_of(b) + tail)[0] == boolean::PREFIX,
{
    let buf = boolean::wire_of(b) + tail;
    assert(buf.take(4) =~= boolean::wire_of(b));
    assert(boolean::wire_of(true) != boolean::wire_of(false)) by {
        assert(boolean::wire_of(true)[1] != boolean::wire_of(false)[1]);
    }
}

/// Null that is written is read back.
pub proof fn lemma_null_round_trip(tail: Seq<u8>)
    ensures
        null::read_of(null::wire_of() + tail) == Ok::<(), DecodeError>(()),
        (null::wire_of() + tail)[0] == null::PREFIX,
{
    let buf = null::wire_of() + tail;
    assert(buf.take(3) =~= null::wire_of());
}

/// An integer that is written and read back is the same.
pub proof fn lemma_integer_round_trip(v: i64, tail: Seq<u8>)
    ensures
        integer::read_of(integer::wire_of(v) + tail) == Ok::<i64, DecodeError>(v),
        (integer::wire_of(v) + tail)[0] == integer::PREFIX,
{
    lemma_signed_text_plain(v as int);
    lemma_line_field_of_wire(integer::PREFIX, signed_text(v as int), tail);
    lemma_ascii_is_utf8(signed_text(v as int));
    lemma_parse_signed_text(v as int);
}

/// A double that is written and read back is the same.
pub proof fn lemma_double_round_trip(text: Seq<char>, tail: Seq<u8>)
    requires
        crate::resp::double::is_double_text(encode_utf8(text)),
    ensures
        double::read_of(double::wire_of(text) + tail) == Ok::<Seq<char>, DecodeError>(text),
        (double::wire_of(text) + tail)[0] == double::PREFIX,
{
    lemma_double_text_crlf_free(encode_utf8(text));
    lemma_line_field_of_wire(double::PREFIX, encode_utf8(text), tail);
    encode_utf8_valid_utf8(text);
    encode_utf8_decode_utf8(text);
}

/// A simple string that is written and read back is the same.
pub proof fn lemma_simple_string_round_trip(text: Seq<char>, tail: Seq<u8>)
    requires
        one_line(text),
    ensures
        simple_string::read_of(simple_string::wire_of(text) + tail) == Ok::<
            Seq<char>,
            DecodeError,
        >(text),
        (simple_string::wire_of(text) + tail)[0] == simple_string::PREFIX,
{
    lemma_line_text_of_wire(simple_string::PREFIX, text, tail);
}

/// A simple error that is written and read back is the same.
pub proof fn lemma_simple_error_round_trip(text: Seq<char>, tail: Seq<u8>)
    requires
        one_line(text),
    ensures
        simple_error::read_of(simple_error::wire_of(text) + tail) == Ok::<Seq<char>, DecodeError>(
            text,
        ),
        (simple_error::wire_of(text) + tail)[0] == simple_error::PREFIX,
{
    lemma_line_text_of_wire(simple_error::PREFIX, text, tail);
}

/// A bulk string that is written and read back is the same.
pub proof fn lemma_bulk_string_round_trip(data: Seq<u8>, tail: Seq<u8>)
    requires
        data.len() <= i64::MAX,
    ensures
        bulk_string::read_of(bulk_string::wire_of(data) + tail) == Ok::<Seq<u8>, DecodeError>(
            data,
        ),
        (bulk_string::wire_of(data) + tail)[0] == bulk_string::PREFIX,
{
    if data.len() == 0 {
        assert(bulk_string::wire_of(data) =~= line_wire(bulk_string::PREFIX, minus_one()));
        lemma_header_of_minus_one(bulk_string::PREFIX, tail);
        assert(data =~= Seq::<u8>::empty());
    } else {
        lemma_bulk_of_wire(bulk_string::PREFIX, data, tail, bulk_string::tail_message());
    }
}

/// A bulk error that is written and read back is the same.
pub proof fn lemma_bulk_error_round_trip(data: Seq<u8>, tail: Seq<u8>)
    requires
        data.len() <= i64::MAX,
    ensures
        bulk_error::read_of(bulk_error::wire_of(data) + tail) == Ok::<Seq<u8>, DecodeError>(data),
        (bulk_error::wire_of(data) + tail)[0] == bulk_error::PREFIX,
{
    lemma_bulk_of_wire(bulk_error::PREFIX, data, tail, bulk_error::tail_message());
}

/// An array of well-formed frames that is written and read back is the same.
pub proof fn lemma_array_round_trip(items: Seq<Frame>, tail: Seq<u8>)
    requires
        items.len() <= i64::MAX,
        all_well_formed(items),
    ensures
        read_array(wire(Frame::Array(items)) + tail) == Ok::<Seq<Frame>, DecodeError>(items),
        (wire(Frame::Array(items)) + tail)[0] == array::PREFIX,
    decreases items, 2nat,
{
    let buf = wire(Frame::Array(items)) + tail;
    if items.len() == 0 {
        assert(wire(Frame::Array(items)) =~= line_wire(array::PREFIX, minus_one()));
        lemma_header_of_minus_one(array::PREFIX, tail);
        assert(items =~= Seq::<Frame>::empty());
    } else {
        let head = count_line(array::PREFIX, items.len());
        lemma_header_of_count(array::PREFIX, items.len(), wire_all(items) + tail);
        assert(buf =~= head + (wire_all(items) + tail));
        assert(after(buf, head.len()) =~= wire_all(items) + tail);
        lemma_read_frames(items, tail, Seq::empty());
        assert(Seq::<Frame>::empty() + items =~= items);
    }
}

/// A set of well-formed frames that is written and read back is the same.
pub proof fn lemma_set_round_trip(items: Seq<Frame>, tail: Seq<u8>)
    requires
        items.len() <= i64::MAX,
        all_well_formed(items),
    ensures
        read_set(wire(Frame::Collection(items)) + tail) == Ok::<Seq<Frame>, DecodeError>(items),
        (wire(Frame::Collection(items)) + tail)[0] == collection::PREFIX,
    decreases items, 2nat,
{
    let buf = wire(Frame::Collection(items)) + tail;
    let head = count_line(collection::PREFIX, items.len());
    lemma_header_of_count(collection::PREFIX, items.len(), wire_all(items) + tail);
    assert(buf =~= head + (wire_all(items) + tail));
    assert(after(buf, head.len()) =~= wire_all(items) + tail);
    lemma_read_frames(items, tail, Seq::empty());
    assert(Seq::<Frame>::empty() + items =~= items);
}

/// A well-formed map that is written and read back is the same.
pub proof fn lemma_map_round_trip(entries: Seq<(Seq<char>, Frame)>, tail: Seq<u8>)
    requires
        entries.len() <= i64::MAX,
        sorted(entries),
        entries_well_formed(entries),
    ensures
        read_map(wire(Frame::Mapping(entries)) + tail) == Ok::<
            Seq<(Seq<char>, Frame)>,
            DecodeError,
        >(entries),
        (wire(Frame::Mapping(entries)) + tail)[0] == mapping::PREFIX,
    decreases entries, 2nat,
{
    let buf = wire(Frame::Mapping(entries)) + tail;
    let head = count_line(mapping::PREFIX, entries.len());
    lemma_header_of_count(mapping::PREFIX, entries.len(), wire_entries(entries) + tail);
    assert(buf =~= head + (wire_entries(entries) + tail));
    assert(after(buf, head.len()) =~= wire_entries(entries) + tail);
    lemma_read_entries(entries, tail, Seq::empty());
    assert(Seq::<(Seq<char>, Frame)>::empty() + entries =~= entries);
}

/// A well-formed frame that is written, with anything after it, is read back
/// as the same frame.
pub proof fn lemma_read_wire(f: Frame, tail: Seq<u8>)
    requires
        well_formed(f),
    ensures
        read_frame(wire(f) + tail) == Ok::<Frame, DecodeError>(f),
    decreases f, 0nat,
{
    match f {
        Frame::Array(items) => {
            lemma_array_round_trip(items, tail);
        },
        Frame::Bool(b) => {
            lemma_bool_round_trip(b, tail);
        },
        Frame::BulkError(data) => {
            lemma_bulk_error_round_trip(data, tail);
        },
        Frame::BulkString(data) => {
            lemma_bulk_string_round_trip(data, tail);
        },
        Frame::Double(text) => {
            lemma_double_round_trip(text, tail);
        },
        Frame::Integer(v) => {
            lemma_integer_round_trip(v, tail);
        },
        Frame::Mapping(entries) => {
            lemma_map_round_trip(entries, tail);
        },
        Frame::Null => {
            lemma_null_round_trip(tail);
        },
        Frame::Collection(items) => {
            lemma_set_round_trip(items, tail);
        },
        Frame::SimpleError(text) => {
            lemma_simple_error_round_trip(text, tail);
        },
        Frame::SimpleString(text) => {
            lemma_simple_string_round_trip(text, tail);
        },
    }
}

/// Well-formed frames that are written one after the other, with anything
/// after them, are read back as the same frames.
pub proof fn lemma_read_frames(items: Seq<Frame>, tail: Seq<u8>, acc: Seq<Frame>)
    requires
        all_well_formed(items),
    ensures
        read_frames(wire_all(items) + tail, items.len(), acc) == Ok::<Seq<Frame>, DecodeError>(
            acc + items,
        ),
    decreases items, 1nat,
{
    if items.len() == 0 {
        assert(wire_all(items) + tail =~= tail);
        assert(acc + items =~= acc);
    } else {
        let first = items.first();
        let rest = items.drop_first();
        let buf = wire_all(items) + tail;
        assert(well_formed(items[0]));
        assert(buf =~= wire(first) + (wire_all(rest) + tail));
        lemma_read_wire(first, wire_all(rest) + tail);
        assert(after(buf, wire(first).len()) =~= wire_all(rest) + tail);
        assert(all_well_formed(rest)) by {
            assert forall|i: int| 0 <= i < rest.len() implies well_formed(#[trigger] rest[i]) by {
                assert(rest[i] == items[i + 1]);
            }
        }
        lemma_read_frames(rest, tail, acc.push(first));
        assert(acc.push(first) + rest =~= acc + items);
    }
}

/// The entries of a well-formed map that are written one after the other,
/// with anything after them, are read back as the same entries.
pub proof fn lemma_read_entries(
    entries: Seq<(Seq<char>, Frame)>,
    tail: Seq<u8>,
    acc: Seq<(Seq<char>, Frame)>,
)
    requires
        entries_well_formed(entries),
        sorted(entries),
        keys_before(acc, entries),
    ensures
        read_entries(wire_entries(entries) + tail, entries.len(), acc) == Ok::<
            Seq<(Seq<char>, Frame)>,
            DecodeError,
        >(acc + entries),
    decreases entries, 1nat,
{
    if entries.len() == 0 {
        assert(wire_entries(entries) + tail =~= tail);
        assert(acc + entries =~= acc);
    } else {
        let key = entries.first().0;
        let value = entries.first().1;
        let rest = entries.drop_first();
        let buf = wire_entries(entries) + tail;
        let key_wire = simple_string::wire_of(key);
        let after_key = wire(value) + (wire_entries(rest) + tail);
        assert(one_line(entries[0].0) && well_formed(entries[0].1));
        assert(buf =~= key_wire + after_key);
        lemma_line_text_of_wire(simple_string::PREFIX, key, after_key);
        assert(after(buf, key_wire.len()) =~= after_key);
        lemma_read_wire(value, wire_entries(rest) + tail);
        assert(after(after_key, wire(value).len()) =~= wire_entries(rest) + tail);
        assert forall|i: int| 0 <= i < acc.len() implies key_lt((#[trigger] acc[i]).0, key) by {
            assert(key_lt(acc[i].0, entries[0].0));
        }
        lemma_insert_at_end(acc, key, value);
        let grown = acc.push((key, value));
        assert(entries_well_formed(rest)) by {
            assert forall|i: int| 0 <= i < rest.len() implies one_line((#[trigger] rest[i]).0)
                && well_formed(rest[i].1) by {
                assert(rest[i] == entries[i + 1]);
            }
        }
        assert(sorted(rest)) by {
            assert forall|i: int, j: int| 0 <= i < j < rest.len() implies key_lt(
                (#[trigger] rest[i]).0,
                (#[trigger] rest[j]).0,
            ) by {
                assert(rest[i] == entries[i + 1] && rest[j] == entries[j + 1]);
            }
        }
        assert(keys_before(grown, rest)) by {
            assert forall|i: int, j: int|
                0 <= i < grown.len() && 0 <= j < rest.len() implies key_lt(
                (#[trigger] grown[i]).0,
                (#[trigger] rest[j]).0,
            ) by {
                assert(rest[j] == entries[j + 1]);
                if i < acc.len() {
                    assert(grown[i] == acc[i]);
                } else {
                    assert(grown[i] == entries[0]);
                }
            }
        }
        lemma_read_entries(rest, tail, grown);
        assert(grown + rest =~= acc + entries);
    }
}

/// An array whose writing was cut short is not complete.
pub proof fn lemma_array_cut_short(items: Seq<Frame>, k: int)
    requires
        items.len() <= i64::MAX,
        all_well_formed(items),
        0 <= k < wire(Frame::Array(items)).len(),
    ensures
        read_array(wire(Frame::Array(items)).take(k)) == Err::<Seq<Frame>, DecodeError>(
            DecodeError::NotComplete,
        ),
    decreases items, 2nat,
{
    let whole = wire(Frame::Array(items));
    let buf = whole.take(k);
    if items.len() == 0 {
        assert(whole =~= line_wire(array::PREFIX, minus_one()));
        assert(crlf_free(minus_one()));
        lemma_header_cut_short(array::PREFIX, minus_one(), k);
    } else {
        lemma_counted_cut_short(array::PREFIX, items, k);
    }
}

/// A set whose writing was cut short is not complete.
pub proof fn lemma_set_cut_short(items: Seq<Frame>, k: int)
    requires
        items.len() <= i64::MAX,
        all_well_formed(items),
        0 <= k < wire(Frame::Collection(items)).len(),
    ensures
        read_set(wire(Frame::Collection(items)).take(k)) == Err::<Seq<Frame>, DecodeError>(
            DecodeError::NotComplete,
        ),
    decreases items, 2nat,
{
    lemma_counted_cut_short(collection::PREFIX, items, k);
}

/// A count and the frames that it announces, cut short: either the header is
/// not complete, or it is read and the frames after it are not complete.
pub proof fn lemma_counted_cut_short(prefix: u8, items: Seq<Frame>, k: int)
    requires
        prefix != CR,
        items.len() <= i64::MAX,
        all_well_formed(items),
        0 <= k < (count_line(prefix, items.len()) + wire_all(items)).len(),
    ensures
        ({
            let buf = (count_line(prefix, items.len()) + wire_all(items)).take(k);
            match header(buf) {
                Err(e) => e == DecodeError::NotComplete,
                Ok((count, next)) => {
                    &&& count == items.len()
                    &&& buf.len() > 0
                    &&& read_frames(after(buf, next as nat), count as nat, Seq::empty()) == Err::<
                        Seq<Frame>,
                        DecodeError,
                    >(DecodeError::NotComplete)
                },
            }
        }),
    decreases items, 1nat,
{
    let head = count_line(prefix, items.len());
    let whole = head + wire_all(items);
    let buf = whole.take(k);
    lemma_digits_plain(items.len());
    if k < head.len() {
        assert(buf =~= head.take(k));
        lemma_header_cut_short(prefix, digits(items.len()), k);
    } else {
        let rest = wire_all(items).take(k - head.len());
        assert(buf =~= head + rest);
        lemma_header_of_count(prefix, items.len(), rest);
        assert(after(buf, head.len()) =~= rest);
        lemma_frames_cut_short(items, k - head.len(), Seq::empty());
    }
}

/// Frames written one after the other and cut short are not complete.
pub proof fn lemma_frames_cut_short(items: Seq<Frame>, k: int, acc: Seq<Frame>)
    requires
        all_well_formed(items),
        0 <= k < wire_all(items).len(),
    ensures
        read_frames(wire_all(items).take(k), items.len(), acc) == Err::<Seq<Frame>, DecodeError>(
            DecodeError::NotComplete,
        ),
    decreases items, 0nat,
{
    let first = items.first();
    let rest = items.drop_first();
    let buf = wire_all(items).take(k);
    let w = wire(first);
    assert(well_formed(items[0]));
    if k < w.len() {
        assert(buf =~= w.take(k));
        lemma_cut_short(first, k);
    } else {
        let tail = wire_all(rest).take(k - w.len());
        assert(buf =~= w + tail);
        lemma_read_wire(first, tail);
        assert(after(buf, w.len()) =~= tail);
        assert(all_well_formed(rest)) by {
            assert forall|i: int| 0 <= i < rest.len() implies well_formed(#[trigger] rest[i]) by {
                assert(rest[i] == items[i + 1]);
            }
        }
        lemma_frames_cut_short(rest, k - w.len(), acc.push(first));
    }
}

/// A map whose writing was cut short is not complete.
pub proof fn lemma_map_cut_short(entries: Seq<(Seq<char>, Frame)>, k: int)
    requires
        entries.len() <= i64::MAX,
        entries_well_formed(entries),
        0 <= k < wire(Frame::Mapping(entries)).len(),
    ensures
        read_map(wire(Frame::Mapping(entries)).take(k)) == Err::<
            Seq<(Seq<char>, Frame)>,
            DecodeError,
        >(DecodeError::NotComplete),
    decreases entries, 2nat,
{
    let head = count_line(mapping::PREFIX, entries.len());
    let whole = head + wire_entries(entries);
    let buf = whole.take(k);
    lemma_digits_plain(entries.len());
    if k < head.len() {
        assert(buf =~= head.take(k));
        lemma_header_cut_short(mapping::PREFIX, digits(entries.len()), k);
    } else {
        let rest = wire_entries(entries).take(k - head.len());
        assert(buf =~= head + rest);
        lemma_header_of_count(mapping::PREFIX, entries.len(), rest);
        assert(after(buf, head.len()) =~= rest);
        lemma_entries_cut_short(entries, k - head.len(), Seq::empty());
    }
}

/// Entries written one after the other and cut short are not complete.
pub proof fn lemma_entries_cut_short(
    entries: Seq<(Seq<char>, Frame)>,
    k: int,
    acc: Seq<(Seq<char>, Frame)>,
)
    requires
        entries_well_formed(entries),
        0 <= k < wire_entries(entries).len(),
    ensures
        read_entries(wire_entries(entries).take(k), entries.len(), acc) == Err::<
            Seq<(Seq<char>, Frame)>,
            DecodeError,
        >(DecodeError::NotComplete),
    decreases entries, 0nat,
{
    let key = entries.first().0;
    let value = entries.first().1;
    let rest = entries.drop_first();
    let buf = wire_entries(entries).take(k);
    let kw = simple_string::wire_of(key);
    let vw = wire(value);
    assert(one_line(entries[0].0) && well_formed(entries[0].1));
    assert(wire_entries(entries) =~= kw + vw + wire_entries(rest));
    lemma_one_line_bytes(key);
    if k < kw.len() {
        assert(buf =~= kw.take(k));
        lemma_line_cut_short(simple_string::PREFIX, encode_utf8(key), k);
    } else if k < kw.len() + vw.len() {
        let tail = vw.take(k - kw.len());
        assert(buf =~= kw + tail);
        lemma_line_text_of_wire(simple_string::PREFIX, key, tail);
        assert(after(buf, kw.len()) =~= tail);
        lemma_cut_short(value, k - kw.len());
    } else {
        let tail = wire_entries(rest).take(k - kw.len() - vw.len());
        assert(buf =~= kw + (vw + tail));
        lemma_line_text_of_wire(simple_string::PREFIX, key, vw + tail);
        assert(after(buf, kw.len()) =~= vw + tail);
        lemma_read_wire(value, tail);
        assert(after(vw + tail, vw.len()) =~= tail);
        assert(entries_well_formed(rest)) by {
            assert forall|i: int| 0 <= i < rest.len() implies one_line((#[trigger] rest[i]).0)
                && well_formed(rest[i].1) by {
                assert(rest[i] == entries[i + 1]);
            }
        }
        lemma_entries_cut_short(rest, k - kw.len() - vw.len(), insert_entry(acc, key, value));
    }
}

/// A well-formed frame whose writing was cut short is not complete.
pub proof fn lemma_cut_short(f: Frame, k: int)
    requires
        well_formed(f),
        0 <= k < wire(f).len(),
    ensures
        read_frame(wire(f).take(k)) == Err::<Frame, DecodeError>(DecodeError::NotComplete),
    decreases f, 0nat,
{
    let buf = wire(f).take(k);
    if k > 0 {
        assert(buf[0] == wire(f)[0]);
        match f {
            Frame::Array(items) => {
                lemma_array_cut_short(items, k);
            },
            Frame::Bool(b) => {
            },
            Frame::BulkError(data) => {
                lemma_bulk_cut_short(bulk_error::PREFIX, data, k, bulk_error::tail_message());
            },
            Frame::BulkString(data) => {
                if data.len() == 0 {
                    assert(wire(f) =~= line_wire(bulk_string::PREFIX, minus_one()));
                    assert(crlf_free(minus_one()));
                    lemma_header_cut_short(bulk_string::PREFIX, minus_one(), k);
                } else {
                    lemma_bulk_cut_short(
                        bulk_string::PREFIX,
                        data,
                        k,
                        bulk_string::tail_message(),
                    );
                }
            },
            Frame::Double(text) => {
                lemma_double_text_crlf_free(encode_utf8(text));
                lemma_line_cut_short(double::PREFIX, encode_utf8(text), k);
            },
            Frame::Integer(v) => {
                lemma_signed_text_plain(v as int);
                lemma_line_cut_short(integer::PREFIX, signed_text(v as int), k);
            },
            Frame::Mapping(entries) => {
                lemma_map_cut_short(entries, k);
            },
            Frame::Null => {
            },
            Frame::Collection(items) => {
                lemma_set_cut_short(items, k);
            },
            Frame::SimpleError(text) => {
                lemma_one_line_bytes(text);
                lemma_line_cut_short(simple_error::PREFIX, encode_utf8(text), k);
            },
            Frame::SimpleString(text) => {
                lemma_one_line_bytes(text);
                lemma_line_cut_short(simple_string::PREFIX, encode_utf8(text), k);
            },
        }
    }
}

/// The prefix byte of the kind of frame that `f` is.
pub open spec fn prefix_of(f: Frame) -> u8 {
    match f {
        Frame::Array(_) => array::PREFIX,
        Frame::Bool(_) => boolean::PREFIX,
        Frame::BulkError(_) => bulk_error::PREFIX,
        Frame::BulkString(_) => bulk_string::PREFIX,
        Frame::Double(_) => double::PREFIX,
        Frame::Integer(_) => integer::PREFIX,
        Frame::Mapping(_) => mapping::PREFIX,
        Frame::Null => null::PREFIX,
        Frame::Collection(_) => collection::PREFIX,
        Frame::SimpleError(_) => simple_error::PREFIX,
        Frame::SimpleString(_) => simple_string::PREFIX,
    }
}

/// Whether `f` and `g` are frames of the same kind.
pub open spec fn same_kind(f: Frame, g: Frame) -> bool {
    match (f, g) {
        (Frame::Array(_), Frame::Array(_)) => true,
        (Frame::Bool(_), Frame::Bool(_)) => true,
        (Frame::BulkError(_), Frame::BulkError(_)) => true,
        (Frame::BulkString(_), Frame::BulkString(_)) => true,
        (Frame::Double(_), Frame::Double(_)) => true,
        (Frame::Integer(_), Frame::Integer(_)) => true,
        (Frame::Mapping(_), Frame::Mapping(_)) => true,
        (Frame::Null, Frame::Null) => true,
        (Frame::Collection(_), Frame::Collection(_)) => true,
        (Frame::SimpleError(_), Frame::SimpleError(_)) => true,
        (Frame::SimpleString(_), Frame::SimpleString(_)) => true,
        _ => false,
    }
}

/// A frame is written with the prefix byte of its own kind first, and frames
/// of two kinds are written with two first bytes.
pub proof fn first_byte_tells_the_kind(f: Frame, g: Frame)
    ensures
        wire(f).len() >= 3,
        wire(f)[0] == prefix_of(f),
        wire(f)[0] == wire(g)[0] <==> same_kind(f, g),
{
}

/// A well-formed frame that is written and read back is the same frame.
pub proof fn round_trip(f: Frame)
    requires
        well_formed(f),
    ensures
        read_frame(wire(f)) == Ok::<Frame, DecodeError>(f),
{
    lemma_read_wire(f, Seq::empty());
    assert(wire(f) + Seq::<u8>::empty() =~= wire(f));
}

/// Whether `b` is the start of `whole`, and shorter than it.
pub open spec fn strict_prefix(b: Seq<u8>, whole: Seq<u8>) -> bool {
    b.len() < whole.len() && b == whole.take(b.len() as int)
}

/// The bytes of a well-formed frame, without one or more of the last, are
/// answered with "not complete".
pub proof fn strict_prefix_is_not_complete(f: Frame, b: Seq<u8>)
    requires
        well_formed(f),
        strict_prefix(b, wire(f)),
    ensures
        read_frame(b) == Err::<Frame, DecodeError>(DecodeError::NotComplete),
{
    lemma_cut_short(f, b.len() as int);
}

/// A well-formed frame that is written, with any bytes after it, is read back
/// as the same frame, and what is left after as many bytes as the frame has
/// are the bytes that followed it.
pub proof fn frame_before_tail(f: Frame, tail: Seq<u8>)
    requires
        well_formed(f),
    ensures
        read_frame(wire(f) + tail) == Ok::<Frame, DecodeError>(f),
        after(wire(f) + tail, wire(f).len()) == tail,
{
    lemma_read_wire(f, tail);
    assert(after(wire(f) + tail, wire(f).len()) =~= tail);
}

/// Two maps in ascending order that hold the same values under the same keys
/// are written as the same bytes.
pub proof fn equal_maps_are_written_alike(
    a: Seq<(Seq<char>, Frame)>,
    b: Seq<(Seq<char>, Frame)>,
)
    requires
        sorted(a),
        sorted(b),
        content(a) == content(b),
    ensures
        wire(Frame::Mapping(a)) == wire(Frame::Mapping(b)),
{
    lemma_sorted_same_content(a, b);
}

} // verus!
