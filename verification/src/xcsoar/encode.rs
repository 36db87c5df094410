//! Encoding into the fixed-width FlarmNet format.
//!
//! The version is written as a lowercase hexadecimal numeral of at least
//! six digits, then one line per record: each field checked to be
//! Latin-1-representable, truncated to its declared length, hex-encoded in
//! lowercase and right-padded with encoded spaces (`20`). The first field
//! that is not Latin-1 aborts the whole encode.

use vstd::prelude::*;

use crate::text::hex_char;
use crate::text::hex_digit_char;
use crate::text::is_latin1;
use crate::text::is_latin1_char;
use crate::text::latin1_byte;
use crate::text::latin1_bytes;
use crate::text::push_hex_u32_min6;
use crate::text::str_chars;
use crate::text::u32_hex_min6;
use crate::xcsoar::fields::AIRFIELD_LENGTH;
use crate::xcsoar::fields::CALL_SIGN_LENGTH;
use crate::xcsoar::fields::FLARM_ID_LENGTH;
use crate::xcsoar::fields::FREQUENCY_LENGTH;
use crate::xcsoar::fields::PILOT_NAME_LENGTH;
use crate::xcsoar::fields::PLANE_TYPE_LENGTH;
use crate::xcsoar::fields::REGISTRATION_LENGTH;
use crate::File;
use crate::FileView;
use crate::Record;
use crate::RecordView;

verus! {

#[verifier::external_type_specification]
#[verifier::external_body]
pub struct ExIoError(std::io::Error);

/// Why a fixed-width encode failed.
#[derive(Debug)]
pub enum EncodeError {
    /// A sink failed while the output was being written. Encoding into a
    /// buffer never produces this; adapters that stream to an external
    /// sink do.
    Io(std::io::Error),
    /// A field's text cannot be represented in Latin-1; carries that value.
    InvalidEncoding(String),
}

/// The mathematical value of an [`EncodeError`].
#[verifier::ext_equal]
pub enum EncodeErrorView {
    Io,
    InvalidEncoding(Seq<char>),
}

impl View for EncodeError {
    type V = EncodeErrorView;

    open spec fn view(&self) -> EncodeErrorView {
        match self {
            EncodeError::Io(_) => EncodeErrorView::Io,
            EncodeError::InvalidEncoding(s) => EncodeErrorView::InvalidEncoding(s@),
        }
    }
}

/// The hex digit pairs of a byte sequence, lowercase.
pub open spec fn bytes_hex(bs: Seq<u8>) -> Seq<char> {
    Seq::new(
        (2 * bs.len()) as nat,
        |i: int|
            if i % 2 == 0 {
                hex_char(bs[i / 2] / 16)
            } else {
                hex_char(bs[i / 2] % 16)
            },
    )
}

/// `n` encoded space characters: the digit pair `20`, `n` times.
pub open spec fn pad20(n: int) -> Seq<char> {
    Seq::new(
        if n >= 0 {
            (2 * n) as nat
        } else {
            0
        },
        |i: int|
            if i % 2 == 0 {
                '2'
            } else {
                '0'
            },
    )
}

/// One encoded field: the Latin-1 bytes of `s`, truncated to `len`, as hex
/// pairs, padded with encoded spaces to the field's full width.
pub open spec fn fw_field(s: Seq<char>, len: int) -> Seq<char> {
    let bytes = latin1_bytes(s);
    let taken = if bytes.len() > len {
        bytes.take(len)
    } else {
        bytes
    };
    bytes_hex(taken) + pad20(len - taken.len())
}

/// One encoded record line, without its newline.
pub open spec fn record_line(r: RecordView) -> Seq<char> {
    fw_field(r.flarm_id, FLARM_ID_LENGTH as int) + fw_field(r.pilot_name, PILOT_NAME_LENGTH as int)
        + fw_field(r.airfield, AIRFIELD_LENGTH as int) + fw_field(
        r.plane_type,
        PLANE_TYPE_LENGTH as int,
    ) + fw_field(r.registration, REGISTRATION_LENGTH as int) + fw_field(
        r.call_sign,
        CALL_SIGN_LENGTH as int,
    ) + fw_field(r.frequency, FREQUENCY_LENGTH as int)
}

/// The first field of `r`, in field order, that is not
/// Latin-1-representable.
pub open spec fn record_bad_value(r: RecordView) -> Option<Seq<char>> {
    if !is_latin1(r.flarm_id) {
        Some(r.flarm_id)
    } else if !is_latin1(r.pilot_name) {
        Some(r.pilot_name)
    } else if !is_latin1(r.airfield) {
        Some(r.airfield)
    } else if !is_latin1(r.plane_type) {
        Some(r.plane_type)
    } else if !is_latin1(r.registration) {
        Some(r.registration)
    } else if !is_latin1(r.call_sign) {
        Some(r.call_sign)
    } else if !is_latin1(r.frequency) {
        Some(r.frequency)
    } else {
        None
    }
}

/// The encoded lines of a record list, each ended by a newline.
pub open spec fn records_chars(rs: Seq<RecordView>) -> Seq<char>
    decreases rs.len(),
{
    if rs.len() == 0 {
        Seq::empty()
    } else {
        records_chars(rs.drop_last()) + record_line(rs.last()) + seq!['\n']
    }
}

/// The whole encoded file, as characters: the version line, then one line
/// per record.
pub open spec fn fw_file_chars(f: FileView) -> Seq<char> {
    u32_hex_min6(f.version) + seq!['\n'] + records_chars(f.records)
}

/// The whole encoded file, as bytes. Every character of the encoding is
/// ASCII, so the bytes are the characters' own values.
pub open spec fn fw_file_bytes(f: FileView) -> Seq<u8> {
    latin1_bytes(fw_file_chars(f))
}

/// The first non-Latin-1 field value in the file, searching records in
/// order and fields in field order.
pub open spec fn file_bad_value_from(rs: Seq<RecordView>) -> Option<Seq<char>>
    decreases rs.len(),
{
    if rs.len() == 0 {
        None
    } else if record_bad_value(rs[0]) is Some {
        record_bad_value(rs[0])
    } else {
        file_bad_value_from(rs.drop_first())
    }
}

/// The value on which encoding the file fails, if any.
pub open spec fn file_bad_value(f: FileView) -> Option<Seq<char>> {
    file_bad_value_from(f.records)
}

/// Records before `i` being clean, the file's first bad value lies at or
/// after `i`.
proof fn lemma_file_bad_skip(rs: Seq<RecordView>, i: int)
    requires
        0 <= i <= rs.len(),
        forall|j: int| 0 <= j < i ==> #[trigger] record_bad_value(rs[j]) is None,
    ensures
        file_bad_value_from(rs) == file_bad_value_from(rs.skip(i)),
    decreases i,
{
    if i == 0 {
        assert(rs.skip(0) =~= rs);
    } else {
        assert(record_bad_value(rs[0]) is None);
        lemma_file_bad_skip(rs.drop_first(), i - 1);
        assert(rs.drop_first().skip(i - 1) =~= rs.skip(i));
    }
}

/// Is every character of `s` Latin-1-representable?
fn check_latin1(s: &String) -> (r: bool)
    ensures
        r == is_latin1(s@),
{
    let t = s.as_str();
    let n = t.unicode_len();
    let mut i: usize = 0;
    while i < n
        invariant
            t@ == s@,
            0 <= i <= n == s@.len(),
            forall|j: int| 0 <= j < i ==> is_latin1_char(#[trigger] s@[j]),
        decreases n - i,
    {
        if t.get_char(i) as u32 >= 256 {
            return false;
        }
        i = i + 1;
    }
    true
}

/// Appends one encoded field to `out`: the value's Latin-1 bytes,
/// truncated to `len`, as lowercase hex pairs, padded with encoded spaces.
pub fn push_field(out: &mut Vec<char>, value: &String, len: usize)
    ensures
        final (out)@ == old(out)@ + fw_field(value@, len as int),
{
    let chars = str_chars(value.as_str());
    let n = if chars.len() > len {
        len
    } else {
        chars.len()
    };
    let ghost taken = if latin1_bytes(value@).len() > len as int {
        latin1_bytes(value@).take(len as int)
    } else {
        latin1_bytes(value@)
    };
    proof {
        assert(taken.len() == n as int);
        assert(forall|j: int| 0 <= j < n ==> taken[j] == latin1_byte(#[trigger] value@[j]));
    }
    let mut i: usize = 0;
    while i < n
        invariant
            0 <= i <= n <= chars@.len(),
            chars@ == value@,
            taken.len() == n as int,
            forall|j: int| 0 <= j < n ==> taken[j] == latin1_byte(#[trigger] value@[j]),
            out@ == old(out)@ + bytes_hex(taken.take(i as int)),
        decreases n - i,
    {
        let b = chars[i] as u8;
        proof {
            assert(b == taken[i as int]);
        }
        out.push(hex_digit_char(b / 16));
        out.push(hex_digit_char(b % 16));
        proof {
            assert(out@ =~= old(out)@ + bytes_hex(taken.take(i + 1)));
        }
        i = i + 1;
    }
    proof {
        assert(taken.take(n as int) =~= taken);
    }
    let pad = len - n;
    let mut k: usize = 0;
    while k < pad
        invariant
            0 <= k <= pad,
            pad == len - n,
            taken.len() == n as int,
            out@ == old(out)@ + bytes_hex(taken) + pad20(k as int),
        decreases pad - k,
    {
        out.push('2');
        out.push('0');
        proof {
            assert(out@ =~= old(out)@ + bytes_hex(taken) + pad20(k + 1));
        }
        k = k + 1;
    }
    proof {
        assert(out@ =~= old(out)@ + fw_field(value@, len as int));
    }
}

/// Appends one record's line, or rejects the record's first
/// non-Latin-1 field, leaving `out` untouched.
fn encode_record_line(out: &mut Vec<char>, rec: &Record) -> (r: Result<(), EncodeError>)
    ensures
        record_bad_value(rec@) is None ==> r is Ok && final (out)@ == old(out)@ + record_line(rec@)
            + seq!['\n'],
        record_bad_value(rec@) is Some ==> r is Err && final (out)@ == old(out)@ && (r->Err_0)@
            == EncodeErrorView::InvalidEncoding(record_bad_value(rec@)->0),
{
    if !check_latin1(&rec.flarm_id) {
        return Err(EncodeError::InvalidEncoding(rec.flarm_id.as_str().to_owned()));
    }
    if !check_latin1(&rec.pilot_name) {
        return Err(EncodeError::InvalidEncoding(rec.pilot_name.as_str().to_owned()));
    }
    if !check_latin1(&rec.airfield) {
        return Err(EncodeError::InvalidEncoding(rec.airfield.as_str().to_owned()));
    }
    if !check_latin1(&rec.plane_type) {
        return Err(EncodeError::InvalidEncoding(rec.plane_type.as_str().to_owned()));
    }
    if !check_latin1(&rec.registration) {
        return Err(EncodeError::InvalidEncoding(rec.registration.as_str().to_owned()));
    }
    if !check_latin1(&rec.call_sign) {
        return Err(EncodeError::InvalidEncoding(rec.call_sign.as_str().to_owned()));
    }
    if !check_latin1(&rec.frequency) {
        return Err(EncodeError::InvalidEncoding(rec.frequency.as_str().to_owned()));
    }
    push_field(out, &rec.flarm_id, FLARM_ID_LENGTH);
    push_field(out, &rec.pilot_name, PILOT_NAME_LENGTH);
    push_field(out, &rec.airfield, AIRFIELD_LENGTH);
    push_field(out, &rec.plane_type, PLANE_TYPE_LENGTH);
    push_field(out, &rec.registration, REGISTRATION_LENGTH);
    push_field(out, &rec.call_sign, CALL_SIGN_LENGTH);
    push_field(out, &rec.frequency, FREQUENCY_LENGTH);
    out.push('\n');
    proof {
        assert(out@ =~= old(out)@ + record_line(rec@) + seq!['\n']);
    }
    Ok(())
}

/// The Latin-1 bytes of a character buffer.
fn chars_latin1_bytes(v: &Vec<char>) -> (r: Vec<u8>)
    ensures
        r@ == latin1_bytes(v@),
{
    let mut r: Vec<u8> = Vec::new();
    let mut i: usize = 0;
    while i < v.len()
        invariant
            0 <= i <= v@.len(),
            r@ == latin1_bytes(v@.take(i as int)),
        decreases v.len() - i,
    {
        r.push(v[i] as u8);
        proof {
            assert(r@ =~= latin1_bytes(v@.take(i + 1)));
        }
        i = i + 1;
    }
    proof {
        assert(v@.take(v@.len() as int) =~= v@);
    }
    r
}

/// Encodes a FlarmNet file into the fixed-width format.
///
/// Succeeds exactly when every field of every record is
/// Latin-1-representable, and then returns precisely the bytes of
/// [`fw_file_chars`]; otherwise it rejects the first bad field value.
pub fn encode_file(file: &File) -> (r: Result<Vec<u8>, EncodeError>)
    ensures
        file_bad_value(file@) is None ==> r is Ok && (r->Ok_0)@ == fw_file_bytes(file@),
        file_bad_value(file@) is Some ==> r is Err && (r->Err_0)@ == EncodeErrorView::InvalidEncoding(
            file_bad_value(file@)->0,
        ),
{
    let mut doc: Vec<char> = Vec::new();
    push_hex_u32_min6(&mut doc, file.version);
    doc.push('\n');
    proof {
        assert(records_chars(file@.records.take(0)) == Seq::<char>::empty());
        assert(doc@ =~= u32_hex_min6(file@.version) + seq!['\n'] + records_chars(
            file@.records.take(0),
        ));
    }
    let ghost rs = file@.records;
    let mut i: usize = 0;
    while i < file.records.len()
        invariant
            0 <= i <= file.records@.len(),
            rs == file@.records,
            rs.len() == file.records@.len(),
            forall|j: int| 0 <= j < i ==> #[trigger] record_bad_value(rs[j]) is None,
            doc@ == u32_hex_min6(file@.version) + seq!['\n'] + records_chars(rs.take(i as int)),
        decreases file.records@.len() - i,
    {
        let ghost doc_pre = doc@;
        match encode_record_line(&mut doc, &file.records[i]) {
            Ok(u) => {
                proof {
                    assert(rs[i as int] == file.records@[i as int]@);
                    assert(rs.take(i + 1).drop_last() =~= rs.take(i as int));
                    assert(rs.take(i + 1).last() == rs[i as int]);
                    assert(doc@ =~= u32_hex_min6(file@.version) + seq!['\n'] + records_chars(
                        rs.take(i + 1),
                    ));
                }
                i = i + 1;
            },
            Err(e) => {
                proof {
                    assert(rs[i as int] == file.records@[i as int]@);
                    lemma_file_bad_skip(rs, i as int);
                    assert(rs.skip(i as int)[0] == rs[i as int]);
                    assert(file_bad_value_from(rs.skip(i as int)) == record_bad_value(
                        rs[i as int],
                    ));
                }
                return Err(e);
            },
        }
    }
    proof {
        lemma_file_bad_skip(rs, rs.len() as int);
        assert(rs.skip(rs.len() as int) =~= Seq::<RecordView>::empty());
        assert(rs.take(rs.len() as int) =~= rs);
    }
    let bytes = chars_latin1_bytes(&doc);
    Ok(bytes)
}

} // verus!
