//! Point lookups in the `record_index` partition of the metadata table.
//!
//! The record-level index maps a record key to the location of the data file that holds the
//! record. The payload `recordIndexMetadata` carries the partition path and the file id, as the
//! two halves of a UUID and a file index.

use vstd::prelude::*;
use vstd::string::*;
use crate::avro::{
    datum_of, datum_view, decode_avro_value, fields_view, first_field_is_found, has_no_field,
    is_decode_error, is_first_field, unwrapped, unwrapped_is_no_union, AvroValue, AvroView,
};
use crate::avro_schema::{is_decodable, schema_shape};
use crate::error::CoreError;
use crate::metadata::column_stats::{
    field_is_read, find_payload, long_field, payload, read_long, read_text, text_field,
};
use crate::numeral::{
    decimal, decimal_injective, decimal_text, hex_digits, hex_digits_injective, hex_digits_len,
    hex_digits_read_back, hex_range, number_of, number_of_both, push_hex,
};
use crate::text::same_text;

verus! {

/// The partition of the metadata table that holds the record-level index.
pub const RECORD_INDEX_PARTITION_NAME: &'static str = "record_index";

/// Where the data file of a record is.
#[derive(Debug, PartialEq, Eq)]
pub struct RecordLocation {
    /// The partition path that holds the record, for instance `city=san_francisco`.
    pub partition_path: String,
    /// The file id of the file group that holds the record, for instance `<uuid>-0`.
    pub file_id: String,
}

/// What a [`RecordLocation`] stands for.
pub struct RecordLocationView {
    pub partition_path: Seq<char>,
    pub file_id: Seq<char>,
}

impl RecordLocation {
    pub open spec fn view(&self) -> RecordLocationView {
        RecordLocationView { partition_path: self.partition_path@, file_id: self.file_id@ }
    }
}

impl Clone for RecordLocation {
    fn clone(&self) -> (r: Self)
        ensures
            r@ == self@,
    {
        RecordLocation {
            partition_path: self.partition_path.clone(),
            file_id: self.file_id.clone(),
        }
    }
}

/// The 64 bits of a two's complement number, as a natural number.
pub open spec fn bits_of(n: i64) -> nat {
    if n < 0 {
        (n + 0x1_0000_0000_0000_0000) as nat
    } else {
        n as nat
    }
}

/// The canonical text of a UUID: its 32 hexadecimal digits in groups of 8, 4, 4, 4 and 12.
pub open spec fn uuid_text(high: i64, low: i64) -> Seq<char> {
    let h = bits_of(high);
    let l = bits_of(low);
    hex_digits(h / 0x1_0000_0000, 8).push('-') + hex_digits((h / 0x1_0000) % 0x1_0000, 4).push('-')
        + hex_digits(h % 0x1_0000, 4).push('-') + hex_digits(l / 0x1_0000_0000_0000, 4).push('-')
        + hex_digits(l % 0x1_0000_0000_0000, 12)
}

fn to_bits(n: i64) -> (r: u64)
    ensures
        r == bits_of(n),
{
    if n < 0 {
        let below: u64 = (-(n + 1)) as u64;
        u64::MAX - below
    } else {
        n as u64
    }
}

/// The canonical text of the UUID with the given halves, as Java holds them.
pub fn uuid_string_from_bits(high: i64, low: i64) -> (r: String)
    ensures
        r@ == uuid_text(high, low),
{
    let h: u64 = to_bits(high);
    let l: u64 = to_bits(low);
    let mut out: String = String::new();
    push_hex(&mut out, h / 0x1_0000_0000, 8);
    out.push('-');
    push_hex(&mut out, (h / 0x1_0000) % 0x1_0000, 4);
    out.push('-');
    push_hex(&mut out, h % 0x1_0000, 4);
    out.push('-');
    push_hex(&mut out, l / 0x1_0000_0000_0000, 4);
    out.push('-');
    push_hex(&mut out, l % 0x1_0000_0000_0000, 12);
    assert(out@ =~= uuid_text(high, low));
    out
}

/// The text of a UUID has 36 characters, with dashes between the groups.
pub proof fn uuid_text_shape(high: i64, low: i64)
    ensures
        uuid_text(high, low).len() == 36,
        uuid_text(high, low)[8] == '-',
        uuid_text(high, low)[13] == '-',
        uuid_text(high, low)[18] == '-',
        uuid_text(high, low)[23] == '-',
{
    let h = bits_of(high);
    let l = bits_of(low);
    hex_digits_len(h / 0x1_0000_0000, 8);
    hex_digits_len((h / 0x1_0000) % 0x1_0000, 4);
    hex_digits_len(h % 0x1_0000, 4);
    hex_digits_len(l / 0x1_0000_0000_0000, 4);
    hex_digits_len(l % 0x1_0000_0000_0000, 12);
}

/// Different UUIDs have different texts.
#[verifier::spinoff_prover]
#[verifier::rlimit(50)]
pub proof fn uuid_text_injective(high_a: i64, low_a: i64, high_b: i64, low_b: i64)
    requires
        uuid_text(high_a, low_a) == uuid_text(high_b, low_b),
    ensures
        high_a == high_b,
        low_a == low_b,
{
    let h = bits_of(high_a);
    let l = bits_of(low_a);
    let g = bits_of(high_b);
    let m = bits_of(low_b);
    uuid_groups(high_a, low_a);
    uuid_groups(high_b, low_b);
    reveal_with_fuel(hex_range, 13);
    hex_digits_injective(h / 0x1_0000_0000, g / 0x1_0000_0000, 8);
    hex_digits_injective((h / 0x1_0000) % 0x1_0000, (g / 0x1_0000) % 0x1_0000, 4);
    hex_digits_injective(h % 0x1_0000, g % 0x1_0000, 4);
    hex_digits_injective(l / 0x1_0000_0000_0000, m / 0x1_0000_0000_0000, 4);
    hex_digits_injective(l % 0x1_0000_0000_0000, m % 0x1_0000_0000_0000, 12);
    assert(h == (h / 0x1_0000_0000) * 0x1_0000_0000 + ((h / 0x1_0000) % 0x1_0000) * 0x1_0000 + h
        % 0x1_0000);
    assert(g == (g / 0x1_0000_0000) * 0x1_0000_0000 + ((g / 0x1_0000) % 0x1_0000) * 0x1_0000 + g
        % 0x1_0000);
}

proof fn uuid_groups(high: i64, low: i64)
    ensures
        uuid_text(high, low).subrange(0, 8) == hex_digits(bits_of(high) / 0x1_0000_0000, 8),
        uuid_text(high, low).subrange(9, 13) == hex_digits(
            (bits_of(high) / 0x1_0000) % 0x1_0000,
            4,
        ),
        uuid_text(high, low).subrange(14, 18) == hex_digits(bits_of(high) % 0x1_0000, 4),
        uuid_text(high, low).subrange(19, 23) == hex_digits(
            bits_of(low) / 0x1_0000_0000_0000,
            4,
        ),
        uuid_text(high, low).subrange(24, 36) == hex_digits(
            bits_of(low) % 0x1_0000_0000_0000,
            12,
        ),
{
    let h = bits_of(high);
    let l = bits_of(low);
    hex_digits_len(h / 0x1_0000_0000, 8);
    hex_digits_len((h / 0x1_0000) % 0x1_0000, 4);
    hex_digits_len(h % 0x1_0000, 4);
    hex_digits_len(l / 0x1_0000_0000_0000, 4);
    hex_digits_len(l % 0x1_0000_0000_0000, 12);
    let s = uuid_text(high, low);
    assert(s.subrange(0, 8) =~= hex_digits(h / 0x1_0000_0000, 8));
    assert(s.subrange(9, 13) =~= hex_digits((h / 0x1_0000) % 0x1_0000, 4));
    assert(s.subrange(14, 18) =~= hex_digits(h % 0x1_0000, 4));
    assert(s.subrange(19, 23) =~= hex_digits(l / 0x1_0000_0000_0000, 4));
    assert(s.subrange(24, 36) =~= hex_digits(l % 0x1_0000_0000_0000, 12));
}

/// The file id in the payload of an index entry: the raw `fileId` where there is one, else the
/// UUID with the file index behind it.
pub open spec fn file_id_in(fields: Seq<(Seq<char>, AvroView)>) -> Option<Seq<char>> {
    let raw = text_field(fields, "fileId"@);
    if raw.len() > 0 {
        Some(raw)
    } else {
        match (long_field(fields, "fileIdHighBits"@), long_field(fields, "fileIdLowBits"@)) {
            (Some(high), Some(low)) => {
                let index = match long_field(fields, "fileIndex"@) {
                    Some(i) => i,
                    None => 0,
                };
                Some(uuid_text(high, low).push('-') + decimal(index as int))
            },
            _ => None,
        }
    }
}

/// Puts the file id of an index entry together.
pub fn reconstruct_file_id(fields: &Vec<(String, AvroValue)>) -> (r: Option<String>)
    ensures
        match r {
            Some(id) => file_id_in(fields_view(fields@)) == Some(id@),
            None => file_id_in(fields_view(fields@)) is None,
        },
{
    let raw: String = read_text(fields, "fileId");
    proof {
        reveal_strlit("");
        if raw@.len() == 0 {
            assert(raw@ =~= ""@);
        }
    }
    if !same_text(raw.as_str(), "") {
        return Some(raw);
    }
    let high: i64 = match read_long(fields, "fileIdHighBits") {
        Some(n) => n,
        None => {
            return None;
        },
    };
    let low: i64 = match read_long(fields, "fileIdLowBits") {
        Some(n) => n,
        None => {
            return None;
        },
    };
    let index: i64 = match read_long(fields, "fileIndex") {
        Some(n) => n,
        None => 0,
    };
    let mut id: String = uuid_string_from_bits(high, low);
    id.push('-');
    let suffix: String = decimal_text(index);
    id.append(suffix.as_str());
    Some(id)
}

/// The location that a metadata record carries.
pub open spec fn location_in(v: AvroView) -> Option<RecordLocationView> {
    match payload(v, "recordIndexMetadata"@) {
        Some(fields) => match file_id_in(fields) {
            Some(file_id) => Some(
                RecordLocationView {
                    partition_path: text_field(fields, "partitionName"@),
                    file_id,
                },
            ),
            None => None,
        },
        None => None,
    }
}

/// What an optional location stands for.
pub open spec fn location_view(l: Option<RecordLocation>) -> Option<RecordLocationView> {
    match l {
        Some(l) => Some(l@),
        None => None,
    }
}

/// Reads the location in a decoded metadata record. `None` where it is no record, carries no
/// such payload, or names no file.
pub fn location_from_value(value: &AvroValue) -> (r: Option<RecordLocation>)
    ensures
        location_view(r) == location_in(value@),
{
    match find_payload(value, "recordIndexMetadata") {
        Some(fields) => {
            let partition_path: String = read_text(fields, "partitionName");
            match reconstruct_file_id(fields) {
                Some(file_id) => Some(RecordLocation { partition_path, file_id }),
                None => None,
            }
        },
        None => None,
    }
}

/// The location that a stored value carries: none in an empty value, which is a tombstone.
pub open spec fn stored_location(schema: apache_avro::Schema, bytes: Seq<u8>) -> Option<
    RecordLocationView,
> {
    if bytes.len() == 0 {
        None
    } else {
        location_in(datum_view(datum_of(schema, bytes)))
    }
}

/// Decodes the value of a `record_index` record.
///
/// `Ok(None)` for a tombstone (an empty value) and for a record without a location. A schema
/// whose values have no end is an error, if the value can lead there.
pub fn decode_record_location_with_schema(value: &[u8], schema: &apache_avro::Schema) -> (r: Result<
    Option<RecordLocation>,
    CoreError,
>)
    ensures
        value@.len() == 0 ==> r matches Ok(None),
        value@.len() > 0 && !is_decodable(schema_shape(*schema), value@) ==> r is Err,
        match r {
            Ok(location) => location_view(location) == stored_location(*schema, value@),
            Err(e) => is_decode_error(*schema, value@, e),
        },
{
    if value.len() == 0 {
        return Ok(None);
    }
    match decode_avro_value(value, schema) {
        Ok(avro_value) => Ok(location_from_value(&avro_value)),
        Err(e) => Err(e),
    }
}

/// Index entries with different UUIDs or file indexes belong to different files.
pub proof fn file_ids_are_distinct(
    high_a: i64,
    low_a: i64,
    index_a: i64,
    high_b: i64,
    low_b: i64,
    index_b: i64,
)
    requires
        uuid_text(high_a, low_a).push('-') + decimal(index_a as int) == uuid_text(
            high_b,
            low_b,
        ).push('-') + decimal(index_b as int),
    ensures
        high_a == high_b,
        low_a == low_b,
        index_a == index_b,
{
    let s = uuid_text(high_a, low_a).push('-') + decimal(index_a as int);
    uuid_text_shape(high_a, low_a);
    uuid_text_shape(high_b, low_b);
    assert(s.take(36) =~= uuid_text(high_a, low_a));
    assert(s.take(36) =~= uuid_text(high_b, low_b));
    uuid_text_injective(high_a, low_a, high_b, low_b);
    assert(s.skip(37) =~= decimal(index_a as int));
    assert(s.skip(37) =~= decimal(index_b as int));
    decimal_injective(index_a as int, index_b as int);
}

/// A raw file id is used as it is, whatever else the payload holds.
pub proof fn raw_file_id_wins(fields: Seq<(Seq<char>, AvroView)>)
    requires
        text_field(fields, "fileId"@).len() > 0,
    ensures
        file_id_in(fields) == Some(text_field(fields, "fileId"@)),
{
}

/// The text of a UUID stands for its two halves: its first 16 hexadecimal digits for the bits of
/// the high half and the others for those of the low half, in two's complement.
#[verifier::spinoff_prover]
#[verifier::rlimit(50)]
pub proof fn uuid_text_reads_back(high: i64, low: i64)
    ensures
        ({
            let s = uuid_text(high, low);
            let first = number_of(s.subrange(0, 8) + s.subrange(9, 13) + s.subrange(14, 18), 16);
            let second = number_of(s.subrange(19, 23) + s.subrange(24, 36), 16);
            &&& first == if high < 0 {
                high + 0x1_0000_0000_0000_0000
            } else {
                high as int
            }
            &&& second == if low < 0 {
                low + 0x1_0000_0000_0000_0000
            } else {
                low as int
            }
        }),
{
    let h = bits_of(high);
    let l = bits_of(low);
    uuid_groups(high, low);
    let a = hex_digits(h / 0x1_0000_0000, 8);
    let b = hex_digits((h / 0x1_0000) % 0x1_0000, 4);
    let c = hex_digits(h % 0x1_0000, 4);
    let d = hex_digits(l / 0x1_0000_0000_0000, 4);
    let e = hex_digits(l % 0x1_0000_0000_0000, 12);
    reveal_with_fuel(hex_range, 13);
    hex_digits_len(h / 0x1_0000_0000, 8);
    hex_digits_len((h / 0x1_0000) % 0x1_0000, 4);
    hex_digits_len(h % 0x1_0000, 4);
    hex_digits_len(l / 0x1_0000_0000_0000, 4);
    hex_digits_len(l % 0x1_0000_0000_0000, 12);
    hex_digits_read_back(h / 0x1_0000_0000, 8);
    hex_digits_read_back((h / 0x1_0000) % 0x1_0000, 4);
    hex_digits_read_back(h % 0x1_0000, 4);
    hex_digits_read_back(l / 0x1_0000_0000_0000, 4);
    hex_digits_read_back(l % 0x1_0000_0000_0000, 12);
    number_of_both(a, b);
    number_of_both(a + b, c);
    number_of_both(d, e);
    assert(h == (h / 0x1_0000_0000) * 0x1_0000_0000 + ((h / 0x1_0000) % 0x1_0000) * 0x1_0000 + h
        % 0x1_0000);
    assert(l == (l / 0x1_0000_0000_0000) * 0x1_0000_0000_0000 + l % 0x1_0000_0000_0000);
}

/// Whether the first field with a name holds a number, as a long or an int.
pub open spec fn holds_number(
    fields: Seq<(Seq<char>, AvroView)>,
    name: Seq<char>,
    k: int,
    n: i64,
) -> bool {
    &&& is_first_field(fields, name, k)
    &&& unwrapped(fields[k].1) == AvroView::Long(n) || (unwrapped(fields[k].1) matches AvroView::Int(
        m,
    ) && m == n)
}

/// The location of a metadata record is read from its payload by the names of the fields: the
/// partition path from the first `partitionName`, and the file id from the first `fileId` that
/// holds a text, unless this is empty.
pub proof fn location_is_read_by_name(
    top: Seq<(Seq<char>, AvroView)>,
    k: int,
    fields: Seq<(Seq<char>, AvroView)>,
    p: int,
    partition: Seq<char>,
    f: int,
    id: Seq<char>,
)
    requires
        is_first_field(top, "recordIndexMetadata"@, k),
        unwrapped(top[k].1) == AvroView::Record(fields),
        is_first_field(fields, "partitionName"@, p),
        unwrapped(fields[p].1) == AvroView::String(partition),
        is_first_field(fields, "fileId"@, f),
        unwrapped(fields[f].1) == AvroView::String(id),
        id.len() > 0,
    ensures
        location_in(AvroView::Record(top)) == Some(
            RecordLocationView { partition_path: partition, file_id: id },
        ),
{
    first_field_is_found(top, "recordIndexMetadata"@, k);
    unwrapped_is_no_union(top[k].1);
    field_is_read(fields, "partitionName"@);
    field_is_read(fields, "fileId"@);
    assert(is_first_field(fields, "fileId"@, f));
    assert(is_first_field(fields, "partitionName"@, p));
}

/// Without a raw file id, the file id is made of the UUID whose halves the first `fileIdHighBits`
/// and the first `fileIdLowBits` hold, and of the first `fileIndex`, or zero where there is none.
pub proof fn file_id_is_made_of_bits(
    top: Seq<(Seq<char>, AvroView)>,
    k: int,
    fields: Seq<(Seq<char>, AvroView)>,
    h: int,
    high: i64,
    l: int,
    low: i64,
    i: int,
    index: i64,
)
    requires
        is_first_field(top, "recordIndexMetadata"@, k),
        unwrapped(top[k].1) == AvroView::Record(fields),
        has_no_field(fields, "fileId"@) || exists|f: int| #[trigger]
            is_first_field(fields, "fileId"@, f) && (unwrapped(fields[f].1) matches AvroView::String(
                id,
            ) ==> id.len() == 0),
        holds_number(fields, "fileIdHighBits"@, h, high),
        holds_number(fields, "fileIdLowBits"@, l, low),
        holds_number(fields, "fileIndex"@, i, index) || (has_no_field(fields, "fileIndex"@) && index
            == 0),
    ensures
        location_in(AvroView::Record(top)) matches Some(location) && location.file_id == uuid_text(
            high,
            low,
        ) + seq!['-'] + decimal(index as int),
{
    first_field_is_found(top, "recordIndexMetadata"@, k);
    unwrapped_is_no_union(top[k].1);
    field_is_read(fields, "fileId"@);
    field_is_read(fields, "fileIdHighBits"@);
    field_is_read(fields, "fileIdLowBits"@);
    field_is_read(fields, "fileIndex"@);
    assert(is_first_field(fields, "fileIdHighBits"@, h));
    assert(is_first_field(fields, "fileIdLowBits"@, l));
    if holds_number(fields, "fileIndex"@, i, index) {
        assert(is_first_field(fields, "fileIndex"@, i));
    }
    assert(uuid_text(high, low).push('-') + decimal(index as int) =~= uuid_text(high, low) + seq![
        '-',
    ] + decimal(index as int));
}

/// A record without the payload carries no location, and neither does a payload that has neither
/// a raw file id nor both halves of a UUID.
pub proof fn no_file_no_location(v: AvroView, k: int, fields: Seq<(Seq<char>, AvroView)>)
    requires
        match v {
            AvroView::Record(top) => {
                ||| has_no_field(top, "recordIndexMetadata"@)
                ||| is_first_field(top, "recordIndexMetadata"@, k) && unwrapped(top[k].1)
                    == AvroView::Record(fields) && has_no_field(fields, "fileId"@) && (has_no_field(
                    fields,
                    "fileIdHighBits"@,
                ) || has_no_field(fields, "fileIdLowBits"@))
            },
            _ => true,
        },
    ensures
        location_in(v) is None,
{
    if let AvroView::Record(top) = v {
        first_field_is_found(top, "recordIndexMetadata"@, k);
        if !has_no_field(top, "recordIndexMetadata"@) {
            unwrapped_is_no_union(top[k].1);
            field_is_read(fields, "fileId"@);
            field_is_read(fields, "fileIdHighBits"@);
            field_is_read(fields, "fileIdLowBits"@);
        }
    }
}

} // verus!
