//! The fixed-width round-trip law: a file whose record fields are
//! Latin-1-representable, within the field-length limits, free of
//! surrounding whitespace, and whose identifiers are hexadecimal numerals,
//! decodes from its own encoding back to itself.

use vstd::prelude::*;

use crate::text::all_hex_digits;
use crate::text::hex_char;
use crate::text::hex_digit_value;
use crate::text::hex_digits_of;
use crate::text::hex_value;
use crate::text::is_hex_digit;
use crate::text::is_hex_numeral_u32;
use crate::text::is_latin1;
use crate::text::is_space_char;
use crate::text::latin1_byte;
use crate::text::latin1_bytes;
use crate::text::latin1_chars;
use crate::text::lemma_latin1_roundtrip;
use crate::text::lemma_trimmed_pad;
use crate::text::str_lines;
use crate::text::strip_cr;
use crate::text::trimmed;
use crate::text::u32_hex_min6;
use crate::xcsoar::decode::candidates;
use crate::xcsoar::decode::decode_lines;
use crate::xcsoar::decode::decoded_field;
use crate::xcsoar::decode::field_chars;
use crate::xcsoar::decode::field_text;
use crate::xcsoar::decode::hex_field_bytes;
use crate::xcsoar::decode::spec_decode_file;
use crate::xcsoar::decode::spec_decode_record;
use crate::xcsoar::decode::DecodedFileView;
use crate::xcsoar::decode::DecodeErrorView;
use crate::xcsoar::encode::bytes_hex;
use crate::xcsoar::encode::fw_field;
use crate::xcsoar::encode::fw_file_chars;
use crate::xcsoar::encode::pad20;
use crate::xcsoar::encode::record_line;
use crate::xcsoar::encode::records_chars;
use crate::xcsoar::fields::AIRFIELD_LENGTH;
use crate::xcsoar::fields::AIRFIELD_START;
use crate::xcsoar::fields::CALL_SIGN_START;
use crate::xcsoar::fields::FLARM_ID_START;
use crate::xcsoar::fields::FREQUENCY_START;
use crate::xcsoar::fields::PILOT_NAME_START;
use crate::xcsoar::fields::PLANE_TYPE_START;
use crate::xcsoar::fields::REGISTRATION_START;
use crate::xcsoar::fields::CALL_SIGN_LENGTH;
use crate::xcsoar::fields::FLARM_ID_LENGTH;
use crate::xcsoar::fields::FREQUENCY_LENGTH;
use crate::xcsoar::fields::LINE_LENGTH;
use crate::xcsoar::fields::PILOT_NAME_LENGTH;
use crate::xcsoar::fields::PLANE_TYPE_LENGTH;
use crate::xcsoar::fields::REGISTRATION_LENGTH;
use crate::FileView;
use crate::RecordView;

verus! {

/// A lowercase hex digit character carries back exactly its value.
proof fn lemma_hex_char_value(x: u8)
    requires
        x < 16,
    ensures
        is_hex_digit(hex_char(x)),
        hex_digit_value(hex_char(x)) == x,
{
}

/// The bare digits of `v` are hex digits denoting `v`.
proof fn lemma_hex_digits_of(v: nat)
    ensures
        hex_digits_of(v).len() >= 1,
        all_hex_digits(hex_digits_of(v)),
        hex_value(hex_digits_of(v)) == v,
    decreases v,
{
    if v < 16 {
        lemma_hex_char_value(v as u8);
        let whole = hex_digits_of(v);
        assert(whole == seq![hex_char(v as u8)]);
        assert(whole.last() == hex_char(v as u8));
        assert(whole.drop_last() =~= Seq::<char>::empty());
        assert(hex_value(whole.drop_last()) == 0);
        assert(hex_value(whole) == 0 * 16 + hex_digit_value(hex_char(v as u8)));
    } else {
        lemma_hex_digits_of(v / 16);
        lemma_hex_char_value((v % 16) as u8);
        let whole = hex_digits_of(v);
        assert(whole == hex_digits_of(v / 16).push(hex_char((v % 16) as u8)));
        assert(whole.drop_last() =~= hex_digits_of(v / 16));
        assert(whole.last() == hex_char((v % 16) as u8));
        assert(hex_value(whole) == hex_value(hex_digits_of(v / 16)) * 16 + hex_digit_value(
            hex_char((v % 16) as u8),
        ));
        assert(hex_value(whole) == (v / 16) * 16 + (v % 16));
        vstd::arithmetic::div_mod::lemma_fundamental_div_mod(v as int, 16);
        assert((v / 16) * 16 + (v % 16) == v);
    }
}

/// Leading zeros do not change a numeral's value.
proof fn lemma_hex_value_leading_zeros(z: Seq<char>, s: Seq<char>)
    requires
        forall|i: int| 0 <= i < z.len() ==> #[trigger] z[i] == '0',
    ensures
        hex_value(z + s) == hex_value(s),
    decreases s.len(), z.len(),
{
    if s.len() == 0 {
        assert(z + s =~= z);
        if z.len() > 0 {
            assert(z.drop_last() + s =~= z.drop_last());
            lemma_hex_value_leading_zeros(z.drop_last(), s);
            assert(hex_value(z.drop_last()) == 0);
            assert(hex_digit_value('0') == 0);
        }
    } else {
        assert((z + s).drop_last() =~= z + s.drop_last());
        lemma_hex_value_leading_zeros(z, s.drop_last());
        assert((z + s).last() == s.last());
    }
}

/// The six-digit-minimum version numeral is a hex numeral denoting exactly
/// the version written.
pub proof fn lemma_version_numeral(v: u32)
    ensures
        is_hex_numeral_u32(u32_hex_min6(v)),
        hex_value(u32_hex_min6(v)) == v,
{
    lemma_hex_digits_of(v as nat);
    let ds = hex_digits_of(v as nat);
    if ds.len() >= 6 {
        assert(u32_hex_min6(v) == ds);
    } else {
        let z = Seq::new((6 - ds.len()) as nat, |i: int| '0');
        assert(u32_hex_min6(v) == z + ds);
        lemma_hex_value_leading_zeros(z, ds);
        assert(is_hex_digit('0'));
        assert forall|i: int| 0 <= i < (z + ds).len() implies is_hex_digit(#[trigger] (z + ds)[i]) by {
            if i < z.len() {
                assert((z + ds)[i] == '0');
            } else {
                assert((z + ds)[i] == ds[i - z.len()]);
            }
        }
    }
}

/// Hex digits are not line breaks, carriage returns, or whitespace.
proof fn lemma_hex_digit_not_special(c: char)
    requires
        is_hex_digit(c),
    ensures
        c != '\n',
        c != '\r',
        !is_space_char(c),
{
}

/// Splitting off one newline-terminated line free of line breaks.
proof fn lemma_str_lines_cons(a: Seq<char>, rest: Seq<char>)
    requires
        forall|i: int| 0 <= i < a.len() ==> #[trigger] a[i] != '\n',
        a.len() > 0 ==> a.last() != '\r',
    ensures
        str_lines(a + seq!['\n'] + rest) == seq![a] + str_lines(rest),
{
    let t = a + seq!['\n'] + rest;
    assert(t[a.len() as int] == '\n');
    assert forall|i: int| 0 <= i < a.len() implies t[i] != '\n' by {
        assert(t[i] == a[i]);
    }
    crate::text::lemma_newline_idx_at(t, a.len() as int);
    assert(t.take(a.len() as int) =~= a);
    assert(strip_cr(a) == a);
    assert(t.skip(a.len() as int + 1) =~= rest);
    assert(str_lines(t) == seq![a] + str_lines(rest));
}

/// An encoded field is always exactly twice its declared length.
proof fn lemma_fw_field_len(s: Seq<char>, len: int)
    requires
        len >= 0,
    ensures
        fw_field(s, len).len() == 2 * len,
{
}

/// Every character of an encoded field is a hex digit.
proof fn lemma_fw_field_hex(s: Seq<char>, len: int)
    requires
        len >= 0,
    ensures
        all_hex_digits(fw_field(s, len)),
{
    let bytes = latin1_bytes(s);
    let taken = if bytes.len() > len {
        bytes.take(len)
    } else {
        bytes
    };
    let fld = fw_field(s, len);
    assert forall|i: int| 0 <= i < fld.len() implies is_hex_digit(#[trigger] fld[i]) by {
        if i < 2 * taken.len() {
            assert(fld[i] == bytes_hex(taken)[i]);
            lemma_hex_char_value((taken[i / 2] / 16) as u8);
            lemma_hex_char_value((taken[i / 2] % 16) as u8);
        } else {
            assert(fld[i] == pad20(len - taken.len())[i - 2 * taken.len()]);
        }
    }
}

/// All-hex strings concatenate to an all-hex string.
proof fn lemma_all_hex_concat(a: Seq<char>, b: Seq<char>)
    requires
        all_hex_digits(a),
        all_hex_digits(b),
    ensures
        all_hex_digits(a + b),
{
    assert forall|i: int| 0 <= i < (a + b).len() implies is_hex_digit(#[trigger] (a + b)[i]) by {
        if i < a.len() {
            assert((a + b)[i] == a[i]);
        } else {
            assert((a + b)[i] == b[i - a.len()]);
        }
    }
}

/// A record line is exactly [`LINE_LENGTH`] hex digits.
proof fn lemma_record_line(r: RecordView)
    ensures
        record_line(r).len() == LINE_LENGTH as int,
        all_hex_digits(record_line(r)),
{
    lemma_fw_field_len(r.flarm_id, FLARM_ID_LENGTH as int);
    lemma_fw_field_len(r.pilot_name, PILOT_NAME_LENGTH as int);
    lemma_fw_field_len(r.airfield, AIRFIELD_LENGTH as int);
    lemma_fw_field_len(r.plane_type, PLANE_TYPE_LENGTH as int);
    lemma_fw_field_len(r.registration, REGISTRATION_LENGTH as int);
    lemma_fw_field_len(r.call_sign, CALL_SIGN_LENGTH as int);
    lemma_fw_field_len(r.frequency, FREQUENCY_LENGTH as int);
    lemma_fw_field_hex(r.flarm_id, FLARM_ID_LENGTH as int);
    lemma_fw_field_hex(r.pilot_name, PILOT_NAME_LENGTH as int);
    lemma_fw_field_hex(r.airfield, AIRFIELD_LENGTH as int);
    lemma_fw_field_hex(r.plane_type, PLANE_TYPE_LENGTH as int);
    lemma_fw_field_hex(r.registration, REGISTRATION_LENGTH as int);
    lemma_fw_field_hex(r.call_sign, CALL_SIGN_LENGTH as int);
    lemma_fw_field_hex(r.frequency, FREQUENCY_LENGTH as int);
    lemma_all_hex_concat(fw_field(r.flarm_id, FLARM_ID_LENGTH as int), fw_field(r.pilot_name, PILOT_NAME_LENGTH as int));
    let p2 = fw_field(r.flarm_id, FLARM_ID_LENGTH as int) + fw_field(r.pilot_name, PILOT_NAME_LENGTH as int);
    lemma_all_hex_concat(p2, fw_field(r.airfield, AIRFIELD_LENGTH as int));
    let p3 = p2 + fw_field(r.airfield, AIRFIELD_LENGTH as int);
    lemma_all_hex_concat(p3, fw_field(r.plane_type, PLANE_TYPE_LENGTH as int));
    let p4 = p3 + fw_field(r.plane_type, PLANE_TYPE_LENGTH as int);
    lemma_all_hex_concat(p4, fw_field(r.registration, REGISTRATION_LENGTH as int));
    let p5 = p4 + fw_field(r.registration, REGISTRATION_LENGTH as int);
    lemma_all_hex_concat(p5, fw_field(r.call_sign, CALL_SIGN_LENGTH as int));
    let p6 = p5 + fw_field(r.call_sign, CALL_SIGN_LENGTH as int);
    lemma_all_hex_concat(p6, fw_field(r.frequency, FREQUENCY_LENGTH as int));
    assert(record_line(r) == p6 + fw_field(r.frequency, FREQUENCY_LENGTH as int));
}

/// Decoding one encoded field gives back the original text, for Latin-1
/// text within the length limit that carries no surrounding whitespace.
proof fn lemma_field_roundtrip(s: Seq<char>, len: int)
    requires
        is_latin1(s),
        s.len() <= len,
        trimmed(s) == s,
    ensures
        decoded_field(fw_field(s, len)) == s,
{
    let bytes = latin1_bytes(s);
    let fld = fw_field(s, len);
    assert(bytes.len() == s.len());
    let k = len - s.len();
    let expect = bytes + Seq::new(k as nat, |i: int| 32u8);
    lemma_fw_field_len(s, len);
    assert forall|i: int| 0 <= i < len implies hex_field_bytes(fld)[i] == expect[i] by {
        if i < s.len() {
            let b = bytes[i];
            assert(fld[2 * i] == bytes_hex(bytes)[2 * i]);
            assert(fld[2 * i + 1] == bytes_hex(bytes)[2 * i + 1]);
            assert(fld[2 * i] == hex_char(b / 16));
            assert(fld[2 * i + 1] == hex_char(b % 16));
            lemma_hex_char_value((b / 16) as u8);
            lemma_hex_char_value((b % 16) as u8);
            assert(hex_field_bytes(fld)[i] == ((b / 16) * 16 + b % 16) as u8);
            assert((b / 16) * 16 + b % 16 == b) by {
                vstd::arithmetic::div_mod::lemma_fundamental_div_mod(b as int, 16);
            }
        } else {
            assert(fld[2 * i] == pad20(k)[2 * i - 2 * s.len()]);
            assert(fld[2 * i + 1] == pad20(k)[2 * i + 1 - 2 * s.len()]);
            assert(fld[2 * i] == '2');
            assert(fld[2 * i + 1] == '0');
            assert(hex_digit_value('2') == 2 && hex_digit_value('0') == 0);
            assert(hex_field_bytes(fld)[i] == 32u8);
        }
    }
    assert(hex_field_bytes(fld) =~= expect);
    lemma_latin1_roundtrip(s);
    let spaces = Seq::new(k as nat, |i: int| ' ');
    assert forall|i: int| 0 <= i < len implies latin1_chars(expect)[i] == (s + spaces)[i] by {
        if i < s.len() {
            assert(expect[i] == bytes[i]);
            assert(latin1_chars(bytes)[i] == s[i]);
        } else {
            assert(expect[i] == 32u8);
            assert((32u8 as char) == ' ');
        }
    }
    assert(latin1_chars(expect) =~= s + spaces);
    lemma_trimmed_pad(s, k as nat);
}

/// Which record fields satisfy the fixed-width round trip: every field
/// Latin-1-representable, within its declared length, equal to its own
/// trim, and an identifier that is a hexadecimal numeral.
pub open spec fn roundtrip_record(r: RecordView) -> bool {
    &&& is_latin1(r.flarm_id) && r.flarm_id.len() <= FLARM_ID_LENGTH as int && trimmed(r.flarm_id)
        == r.flarm_id && is_hex_numeral_u32(r.flarm_id)
    &&& is_latin1(r.pilot_name) && r.pilot_name.len() <= PILOT_NAME_LENGTH as int && trimmed(
        r.pilot_name,
    ) == r.pilot_name
    &&& is_latin1(r.airfield) && r.airfield.len() <= AIRFIELD_LENGTH as int && trimmed(r.airfield)
        == r.airfield
    &&& is_latin1(r.plane_type) && r.plane_type.len() <= PLANE_TYPE_LENGTH as int && trimmed(
        r.plane_type,
    ) == r.plane_type
    &&& is_latin1(r.registration) && r.registration.len() <= REGISTRATION_LENGTH as int && trimmed(
        r.registration,
    ) == r.registration
    &&& is_latin1(r.call_sign) && r.call_sign.len() <= CALL_SIGN_LENGTH as int && trimmed(
        r.call_sign,
    ) == r.call_sign
    &&& is_latin1(r.frequency) && r.frequency.len() <= FREQUENCY_LENGTH as int && trimmed(
        r.frequency,
    ) == r.frequency
}

/// One record decodes from its own encoded line back to itself.
#[verifier::rlimit(60)]
pub proof fn lemma_record_roundtrip(r: RecordView)
    requires
        roundtrip_record(r),
    ensures
        spec_decode_record(record_line(r)) == Ok::<RecordView, DecodeErrorView>(r),
{
    let line = record_line(r);
    lemma_record_line(r);
    lemma_fw_field_len(r.flarm_id, FLARM_ID_LENGTH as int);
    lemma_fw_field_len(r.pilot_name, PILOT_NAME_LENGTH as int);
    lemma_fw_field_len(r.airfield, AIRFIELD_LENGTH as int);
    lemma_fw_field_len(r.plane_type, PLANE_TYPE_LENGTH as int);
    lemma_fw_field_len(r.registration, REGISTRATION_LENGTH as int);
    lemma_fw_field_len(r.call_sign, CALL_SIGN_LENGTH as int);
    lemma_fw_field_len(r.frequency, FREQUENCY_LENGTH as int);
    assert(field_chars(line, 0) =~= fw_field(r.flarm_id, FLARM_ID_LENGTH as int));
    assert(field_chars(line, 1) =~= fw_field(r.pilot_name, PILOT_NAME_LENGTH as int));
    assert(field_chars(line, 2) =~= fw_field(r.airfield, AIRFIELD_LENGTH as int));
    assert(field_chars(line, 3) =~= fw_field(r.plane_type, PLANE_TYPE_LENGTH as int));
    assert(field_chars(line, 4) =~= fw_field(r.registration, REGISTRATION_LENGTH as int));
    assert(field_chars(line, 5) =~= fw_field(r.call_sign, CALL_SIGN_LENGTH as int));
    assert(field_chars(line, 6) =~= fw_field(r.frequency, FREQUENCY_LENGTH as int));
    assert forall|f: int| 0 <= f <= 6 implies all_hex_digits(#[trigger] field_chars(line, f)) by {
        assert forall|i: int|
            0 <= i < field_chars(line, f).len() implies is_hex_digit(
            #[trigger] field_chars(line, f)[i],
        ) by {
            assert(field_chars(line, f)[i] == line[field_chars_offset(f) + i]);
        }
    }
    lemma_field_roundtrip(r.flarm_id, FLARM_ID_LENGTH as int);
    lemma_field_roundtrip(r.pilot_name, PILOT_NAME_LENGTH as int);
    lemma_field_roundtrip(r.airfield, AIRFIELD_LENGTH as int);
    lemma_field_roundtrip(r.plane_type, PLANE_TYPE_LENGTH as int);
    lemma_field_roundtrip(r.registration, REGISTRATION_LENGTH as int);
    lemma_field_roundtrip(r.call_sign, CALL_SIGN_LENGTH as int);
    lemma_field_roundtrip(r.frequency, FREQUENCY_LENGTH as int);
    assert(field_text(line, 0) == r.flarm_id);
    assert(spec_decode_record(line) is Ok);
    assert(spec_decode_record(line)->Ok_0 =~= r);
}

/// The encoded record lines, unfolded from the front.
proof fn lemma_records_chars_cons(rs: Seq<RecordView>)
    requires
        rs.len() > 0,
    ensures
        records_chars(rs) == record_line(rs[0]) + seq!['\n'] + records_chars(rs.drop_first()),
    decreases rs.len(),
{
    if rs.len() == 1 {
        assert(rs.drop_last() =~= Seq::<RecordView>::empty());
        assert(rs.drop_first() =~= Seq::<RecordView>::empty());
        assert(records_chars(rs) =~= record_line(rs[0]) + seq!['\n'] + records_chars(
            rs.drop_first(),
        ));
    } else {
        lemma_records_chars_cons(rs.drop_last());
        assert(rs.drop_last()[0] == rs[0]);
        assert(rs.drop_last().drop_first() =~= rs.drop_first().drop_last());
        assert(rs.drop_first().last() == rs.last());
        assert(records_chars(rs.drop_first()) == records_chars(rs.drop_first().drop_last())
            + record_line(rs.drop_first().last()) + seq!['\n']);
        assert(records_chars(rs) =~= record_line(rs[0]) + seq!['\n'] + records_chars(
            rs.drop_first(),
        ));
    }
}

/// The encoded record block splits back into exactly one line per record.
proof fn lemma_records_lines(rs: Seq<RecordView>)
    ensures
        str_lines(records_chars(rs)).len() == rs.len(),
        forall|i: int|
            0 <= i < rs.len() ==> str_lines(records_chars(rs))[i] == record_line(#[trigger] rs[i]),
    decreases rs.len(),
{
    if rs.len() == 0 {
    } else {
        let a = record_line(rs[0]);
        lemma_records_chars_cons(rs);
        lemma_record_line(rs[0]);
        assert forall|i: int| 0 <= i < a.len() implies a[i] != '\n' by {
            lemma_hex_digit_not_special(a[i]);
        }
        assert(a.last() != '\r') by {
            lemma_hex_digit_not_special(a.last());
        }
        lemma_str_lines_cons(a, records_chars(rs.drop_first()));
        lemma_records_lines(rs.drop_first());
        assert forall|i: int|
            0 <= i < rs.len() implies str_lines(records_chars(rs))[i] == record_line(
            #[trigger] rs[i],
        ) by {
            if i > 0 {
                assert(str_lines(records_chars(rs))[i] == str_lines(
                    records_chars(rs.drop_first()),
                )[i - 1]);
                assert(rs.drop_first()[i - 1] == rs[i]);
            }
        }
    }
}

/// When no line is empty, every line is a candidate.
proof fn lemma_candidates_identity(ls: Seq<Seq<char>>)
    requires
        forall|i: int| 0 <= i < ls.len() ==> (#[trigger] ls[i]).len() > 0,
    ensures
        candidates(ls) == ls,
    decreases ls.len(),
{
    if ls.len() > 0 {
        lemma_candidates_identity(ls.drop_last());
        assert(candidates(ls) =~= ls);
    }
}

/// `decode_lines` is the per-line decode, elementwise.
proof fn lemma_decode_lines_index(ls: Seq<Seq<char>>)
    ensures
        decode_lines(ls).len() == ls.len(),
        forall|i: int|
            0 <= i < ls.len() ==> decode_lines(ls)[i] == spec_decode_record(#[trigger] ls[i]),
    decreases ls.len(),
{
    if ls.len() > 0 {
        lemma_decode_lines_index(ls.drop_last());
        assert forall|i: int|
            0 <= i < ls.len() implies decode_lines(ls)[i] == spec_decode_record(
            #[trigger] ls[i],
        ) by {
            if i < ls.len() - 1 {
                assert(decode_lines(ls)[i] == decode_lines(ls.drop_last())[i]);
                assert(ls.drop_last()[i] == ls[i]);
            } else {
                assert(ls.last() == ls[i]);
            }
        }
    }
}

/// Every record wrapped as its own success, in order: what a clean decode
/// of an encoded file reports.
pub open spec fn all_ok(rs: Seq<RecordView>) -> Seq<Result<RecordView, DecodeErrorView>>
    decreases rs.len(),
{
    if rs.len() == 0 {
        Seq::empty()
    } else {
        all_ok(rs.drop_last()).push(Ok(rs.last()))
    }
}

/// `all_ok` wraps each record, elementwise.
proof fn lemma_all_ok_index(rs: Seq<RecordView>)
    ensures
        all_ok(rs).len() == rs.len(),
        forall|i: int|
            0 <= i < rs.len() ==> all_ok(rs)[i] == Ok::<RecordView, DecodeErrorView>(
                #[trigger] rs[i],
            ),
    decreases rs.len(),
{
    if rs.len() > 0 {
        lemma_all_ok_index(rs.drop_last());
        assert forall|i: int|
            0 <= i < rs.len() implies all_ok(rs)[i] == Ok::<RecordView, DecodeErrorView>(
            #[trigger] rs[i],
        ) by {
            if i < rs.len() - 1 {
                assert(all_ok(rs)[i] == all_ok(rs.drop_last())[i]);
                assert(rs.drop_last()[i] == rs[i]);
            } else {
                assert(rs.last() == rs[i]);
            }
        }
    }
}

/// Does every record of the file satisfy the round-trip conditions?
pub open spec fn roundtrip_file(f: FileView) -> bool {
    forall|i: int| 0 <= i < f.records.len() ==> roundtrip_record(#[trigger] f.records[i])
}

/// The fixed-width round trip: a file of round-trip-clean records decodes
/// from its own encoding to its own version and every record as a success,
/// in order. A field with surrounding whitespace, one beyond its declared
/// length, or a non-hex identifier is excluded: trimming, truncation, or
/// the identifier check would alter it.
pub proof fn lemma_fixed_width_roundtrip(f: FileView)
    requires
        roundtrip_file(f),
    ensures
        spec_decode_file(fw_file_chars(f)) == Ok::<DecodedFileView, DecodeErrorView>(
            DecodedFileView { version: f.version, records: all_ok(f.records) },
        ),
{
    let doc = fw_file_chars(f);
    let ver = u32_hex_min6(f.version);
    lemma_version_numeral(f.version);
    assert forall|i: int| 0 <= i < ver.len() implies ver[i] != '\n' by {
        lemma_hex_digit_not_special(ver[i]);
    }
    assert(ver.last() != '\r') by {
        lemma_hex_digit_not_special(ver.last());
    }
    assert(doc =~= ver + seq!['\n'] + records_chars(f.records));
    lemma_str_lines_cons(ver, records_chars(f.records));
    lemma_records_lines(f.records);
    let ls = str_lines(doc);
    assert(ls.len() == 1 + f.records.len());
    assert(ls[0] == ver);
    assert forall|i: int| 0 <= i < f.records.len() implies ls.skip(1)[i] == record_line(
        #[trigger] f.records[i],
    ) by {
        assert(ls[i + 1] == str_lines(records_chars(f.records))[i]);
    }
    assert forall|i: int| 0 <= i < ls.skip(1).len() implies (#[trigger] ls.skip(1)[i]).len() > 0 by {
        lemma_record_line(f.records[i]);
    }
    lemma_candidates_identity(ls.skip(1));
    lemma_decode_lines_index(ls.skip(1));
    lemma_all_ok_index(f.records);
    assert forall|i: int| 0 <= i < f.records.len() implies decode_lines(ls.skip(1))[i] == all_ok(
        f.records,
    )[i] by {
        lemma_record_roundtrip(f.records[i]);
    }
    assert(decode_lines(candidates(ls.skip(1))) =~= all_ok(f.records));
    assert(spec_decode_file(doc)->Ok_0 =~= DecodedFileView {
        version: f.version,
        records: all_ok(f.records),
    });
}

/// The whole encoding is ASCII: hex digits and newlines only.
proof fn lemma_fw_file_chars_ascii(f: FileView)
    ensures
        vstd::utf8::is_ascii_chars(fw_file_chars(f)),
{
    let ver = u32_hex_min6(f.version);
    lemma_version_numeral(f.version);
    lemma_records_chars_ascii(f.records);
    let doc = fw_file_chars(f);
    assert forall|i: int| 0 <= i < doc.len() implies '\0' <= #[trigger] doc[i] <= '\u{7f}' by {
        if i < ver.len() {
            assert(doc[i] == ver[i]);
            assert(is_hex_digit(ver[i]));
        } else if i == ver.len() {
            assert(doc[i] == '\n');
        } else {
            assert(doc[i] == records_chars(f.records)[i - ver.len() - 1]);
        }
    }
}

/// Record lines hold hex digits and newlines only: all ASCII.
proof fn lemma_records_chars_ascii(rs: Seq<RecordView>)
    ensures
        vstd::utf8::is_ascii_chars(records_chars(rs)),
    decreases rs.len(),
{
    if rs.len() > 0 {
        lemma_records_chars_ascii(rs.drop_last());
        lemma_record_line(rs.last());
        let whole = records_chars(rs);
        let head = records_chars(rs.drop_last());
        let line = record_line(rs.last());
        assert forall|i: int| 0 <= i < whole.len() implies '\0' <= #[trigger] whole[i] <= '\u{7f}' by {
            if i < head.len() {
                assert(whole[i] == head[i]);
            } else if i < head.len() + line.len() {
                assert(whole[i] == line[i - head.len()]);
                assert(is_hex_digit(line[i - head.len()]));
            } else {
                assert(whole[i] == '\n');
            }
        }
    }
}

/// The fixed-width encoder's bytes are valid UTF-8 and read back as
/// exactly the encoded document text, so decoding what was encoded always
/// reaches [`spec_decode_file`] with [`fw_file_chars`].
pub proof fn lemma_fw_bytes_text(f: FileView)
    ensures
        vstd::utf8::valid_utf8(crate::xcsoar::encode::fw_file_bytes(f)),
        vstd::utf8::decode_utf8(crate::xcsoar::encode::fw_file_bytes(f)) == fw_file_chars(f),
{
    let chars = fw_file_chars(f);
    lemma_fw_file_chars_ascii(f);
    vstd::utf8::is_ascii_chars_encode_utf8(chars);
    assert forall|i: int|
        0 <= i < chars.len() implies crate::xcsoar::encode::fw_file_bytes(f)[i] == vstd::utf8::encode_utf8(
        chars,
    )[i] by {
        assert(latin1_bytes(chars)[i] == latin1_byte(chars[i]));
    }
    assert(crate::xcsoar::encode::fw_file_bytes(f) =~= vstd::utf8::encode_utf8(chars));
    vstd::utf8::encode_utf8_valid_utf8(chars);
    vstd::utf8::encode_utf8_decode_utf8(chars);
}

/// Offset of field `f` within a record line.
pub open spec fn field_chars_offset(f: int) -> int {
    if f == 0 {
        FLARM_ID_START as int
    } else if f == 1 {
        PILOT_NAME_START as int
    } else if f == 2 {
        AIRFIELD_START as int
    } else if f == 3 {
        PLANE_TYPE_START as int
    } else if f == 4 {
        REGISTRATION_START as int
    } else if f == 5 {
        CALL_SIGN_START as int
    } else {
        FREQUENCY_START as int
    }
}

} // verus!
