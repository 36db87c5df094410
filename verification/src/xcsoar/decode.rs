//! Decoding of the fixed-width FlarmNet format.
//!
//! The first line is a hexadecimal version numeral; every further non-empty
//! line is one candidate record of exactly [`LINE_LENGTH`] characters, each
//! field stored as hex digit pairs, interpreted as Latin-1 text and trimmed.
//! A bad record line never aborts the file: its error is recorded in place,
//! in line order.

use vstd::prelude::*;

use crate::text::all_hex_digits;
use crate::text::chars_to_string;
use crate::text::hex_digit;
use crate::text::hex_digit_value;
use crate::text::hex_value;
use crate::text::is_hex_numeral_u32;
use crate::text::latin1_chars;
use crate::text::parse_hex_u32;
use crate::text::split_lines;
use crate::text::str_chars;
use crate::text::str_lines;
use crate::text::trim_range;
use crate::text::trimmed;
use crate::xcsoar::fields::AIRFIELD_START;
use crate::xcsoar::fields::CALL_SIGN_START;
use crate::xcsoar::fields::FLARM_ID_START;
use crate::xcsoar::fields::FREQUENCY_START;
use crate::xcsoar::fields::LINE_LENGTH;
use crate::xcsoar::fields::PILOT_NAME_START;
use crate::xcsoar::fields::PLANE_TYPE_START;
use crate::xcsoar::fields::REGISTRATION_START;
use crate::Record;
use crate::RecordView;

verus! {

/// Why a fixed-width file or record line was rejected.
#[derive(Debug)]
pub enum DecodeError {
    /// The file has no lines at all.
    MissingVersion,
    /// The first line is not a hexadecimal numeral; carries that line.
    InvalidVersion(String),
    /// A record line is not exactly [`LINE_LENGTH`] characters long;
    /// carries the actual length.
    UnexpectedLineLength(usize),
    /// A field holds something other than hex digit pairs; carries the
    /// offending field substring.
    UnexpectedCharacter(String),
    /// The decoded identifier field is not a hexadecimal numeral; carries
    /// the decoded text.
    InvalidFlarmId(String),
}

/// The mathematical value of a [`DecodeError`].
#[verifier::ext_equal]
pub enum DecodeErrorView {
    MissingVersion,
    InvalidVersion(Seq<char>),
    UnexpectedLineLength(nat),
    UnexpectedCharacter(Seq<char>),
    InvalidFlarmId(Seq<char>),
}

impl View for DecodeError {
    type V = DecodeErrorView;

    open spec fn view(&self) -> DecodeErrorView {
        match self {
            DecodeError::MissingVersion => DecodeErrorView::MissingVersion,
            DecodeError::InvalidVersion(s) => DecodeErrorView::InvalidVersion(s@),
            DecodeError::UnexpectedLineLength(n) => DecodeErrorView::UnexpectedLineLength(
                *n as nat,
            ),
            DecodeError::UnexpectedCharacter(s) => DecodeErrorView::UnexpectedCharacter(s@),
            DecodeError::InvalidFlarmId(s) => DecodeErrorView::InvalidFlarmId(s@),
        }
    }
}

/// The outcome of decoding one candidate line, as a mathematical value.
pub open spec fn record_result_view(r: Result<Record, DecodeError>) -> Result<
    RecordView,
    DecodeErrorView,
> {
    match r {
        Ok(rec) => Ok(rec@),
        Err(e) => Err(e@),
    }
}

/// The bytes denoted by a string of hex digit pairs.
pub open spec fn hex_field_bytes(s: Seq<char>) -> Seq<u8> {
    Seq::new(
        (s.len() / 2) as nat,
        |i: int| (hex_digit_value(s[2 * i]) * 16 + hex_digit_value(s[2 * i + 1])) as u8,
    )
}

/// The text a hex-encoded field denotes: its bytes read as Latin-1,
/// trimmed of surrounding whitespace.
pub open spec fn decoded_field(s: Seq<char>) -> Seq<char> {
    trimmed(latin1_chars(hex_field_bytes(s)))
}

/// The encoded characters of field `f` (0 to 6) within a record line.
pub open spec fn field_chars(line: Seq<char>, f: int) -> Seq<char> {
    if f == 0 {
        line.subrange(FLARM_ID_START as int, PILOT_NAME_START as int)
    } else if f == 1 {
        line.subrange(PILOT_NAME_START as int, AIRFIELD_START as int)
    } else if f == 2 {
        line.subrange(AIRFIELD_START as int, PLANE_TYPE_START as int)
    } else if f == 3 {
        line.subrange(PLANE_TYPE_START as int, REGISTRATION_START as int)
    } else if f == 4 {
        line.subrange(REGISTRATION_START as int, CALL_SIGN_START as int)
    } else if f == 5 {
        line.subrange(CALL_SIGN_START as int, FREQUENCY_START as int)
    } else {
        line.subrange(FREQUENCY_START as int, LINE_LENGTH as int)
    }
}

/// The decoded text of field `f` within a record line.
pub open spec fn field_text(line: Seq<char>, f: int) -> Seq<char> {
    decoded_field(field_chars(line, f))
}

/// What decoding one candidate record line yields, checked in the order the
/// decoder works: the line length, the identifier field's digits, the
/// identifier's hex validity, then the remaining fields' digits.
pub open spec fn spec_decode_record(line: Seq<char>) -> Result<RecordView, DecodeErrorView> {
    if line.len() != LINE_LENGTH as int {
        Err(DecodeErrorView::UnexpectedLineLength(line.len()))
    } else if !all_hex_digits(field_chars(line, 0)) {
        Err(DecodeErrorView::UnexpectedCharacter(field_chars(line, 0)))
    } else if !is_hex_numeral_u32(field_text(line, 0)) {
        Err(DecodeErrorView::InvalidFlarmId(field_text(line, 0)))
    } else if !all_hex_digits(field_chars(line, 1)) {
        Err(DecodeErrorView::UnexpectedCharacter(field_chars(line, 1)))
    } else if !all_hex_digits(field_chars(line, 2)) {
        Err(DecodeErrorView::UnexpectedCharacter(field_chars(line, 2)))
    } else if !all_hex_digits(field_chars(line, 3)) {
        Err(DecodeErrorView::UnexpectedCharacter(field_chars(line, 3)))
    } else if !all_hex_digits(field_chars(line, 4)) {
        Err(DecodeErrorView::UnexpectedCharacter(field_chars(line, 4)))
    } else if !all_hex_digits(field_chars(line, 5)) {
        Err(DecodeErrorView::UnexpectedCharacter(field_chars(line, 5)))
    } else if !all_hex_digits(field_chars(line, 6)) {
        Err(DecodeErrorView::UnexpectedCharacter(field_chars(line, 6)))
    } else {
        Ok(
            RecordView {
                flarm_id: field_text(line, 0),
                pilot_name: field_text(line, 1),
                airfield: field_text(line, 2),
                plane_type: field_text(line, 3),
                registration: field_text(line, 4),
                call_sign: field_text(line, 5),
                frequency: field_text(line, 6),
            },
        )
    }
}

/// A copy of `s[start..end]`.
fn copy_range(s: &Vec<char>, start: usize, end: usize) -> (r: Vec<char>)
    requires
        start <= end <= s@.len(),
    ensures
        r@ == s@.subrange(start as int, end as int),
{
    let mut r: Vec<char> = Vec::new();
    let mut i: usize = start;
    while i < end
        invariant
            start <= i <= end <= s@.len(),
            r@ == s@.subrange(start as int, i as int),
        decreases end - i,
    {
        r.push(s[i]);
        proof {
            assert(r@ =~= s@.subrange(start as int, i + 1));
        }
        i = i + 1;
    }
    r
}

/// Decodes the hex digit pairs of `chars[start..end]` into the field text,
/// or reports the substring when it is not all hex digits.
fn decode_field_text(chars: &Vec<char>, start: usize, end: usize) -> (r: Result<
    Vec<char>,
    DecodeError,
>)
    requires
        start <= end <= chars@.len(),
        (end - start) % 2 == 0,
    ensures
        ({
            let sub = chars@.subrange(start as int, end as int);
            match r {
                Ok(v) => all_hex_digits(sub) && v@ == decoded_field(sub),
                Err(e) => !all_hex_digits(sub) && e@ == DecodeErrorView::UnexpectedCharacter(sub),
            }
        }),
{
    let ghost sub = chars@.subrange(start as int, end as int);
    let mut bytes: Vec<u8> = Vec::new();
    let mut i: usize = start;
    while i < end
        invariant
            start <= i <= end <= chars@.len(),
            (i - start) % 2 == 0,
            (end - start) % 2 == 0,
            sub == chars@.subrange(start as int, end as int),
            forall|k: int| 0 <= k < i - start ==> crate::text::is_hex_digit(#[trigger] sub[k]),
            bytes@.len() == (i - start) / 2,
            forall|k: int|
                0 <= k < bytes@.len() ==> #[trigger] bytes@[k] == (hex_digit_value(sub[2 * k]) * 16
                    + hex_digit_value(sub[2 * k + 1])) as u8,
        decreases end - i,
    {
        let hi = hex_digit(chars[i]);
        let lo = hex_digit(chars[i + 1]);
        proof {
            assert(sub[i - start] == chars@[i as int]);
            assert(sub[i - start + 1] == chars@[i + 1]);
        }
        match (hi, lo) {
            (Some(h), Some(l)) => {
                bytes.push(h * 16 + l);
                i = i + 2;
            },
            _ => {
                let field = copy_range(chars, start, end);
                return Err(DecodeError::UnexpectedCharacter(chars_to_string(&field)));
            },
        }
    }
    proof {
        assert(bytes@ =~= hex_field_bytes(sub));
    }
    let mut text: Vec<char> = Vec::new();
    let mut k: usize = 0;
    while k < bytes.len()
        invariant
            0 <= k <= bytes@.len(),
            text@ == latin1_chars(bytes@.take(k as int)),
        decreases bytes.len() - k,
    {
        text.push(bytes[k] as char);
        proof {
            assert(text@ =~= latin1_chars(bytes@.take(k + 1)));
        }
        k = k + 1;
    }
    proof {
        assert(bytes@.take(bytes@.len() as int) =~= bytes@);
    }
    let trimmed_text = trim_range(&text, 0, text.len());
    proof {
        assert(text@.subrange(0, text@.len() as int) =~= text@);
    }
    Ok(trimmed_text)
}

/// Decodes one candidate record line, given as characters.
fn decode_record_chars(chars: &Vec<char>) -> (r: Result<Record, DecodeError>)
    ensures
        record_result_view(r) == spec_decode_record(chars@),
{
    if chars.len() != LINE_LENGTH {
        return Err(DecodeError::UnexpectedLineLength(chars.len()));
    }
    let flarm_id = match decode_field_text(chars, FLARM_ID_START, PILOT_NAME_START) {
        Ok(v) => v,
        Err(e) => {
            return Err(e);
        },
    };
    if parse_hex_u32(&flarm_id, 0, flarm_id.len()).is_none() {
        proof {
            assert(flarm_id@.subrange(0, flarm_id@.len() as int) =~= flarm_id@);
        }
        return Err(DecodeError::InvalidFlarmId(chars_to_string(&flarm_id)));
    }
    proof {
        assert(flarm_id@.subrange(0, flarm_id@.len() as int) =~= flarm_id@);
    }
    let pilot_name = match decode_field_text(chars, PILOT_NAME_START, AIRFIELD_START) {
        Ok(v) => v,
        Err(e) => {
            return Err(e);
        },
    };
    let airfield = match decode_field_text(chars, AIRFIELD_START, PLANE_TYPE_START) {
        Ok(v) => v,
        Err(e) => {
            return Err(e);
        },
    };
    let plane_type = match decode_field_text(chars, PLANE_TYPE_START, REGISTRATION_START) {
        Ok(v) => v,
        Err(e) => {
            return Err(e);
        },
    };
    let registration = match decode_field_text(chars, REGISTRATION_START, CALL_SIGN_START) {
        Ok(v) => v,
        Err(e) => {
            return Err(e);
        },
    };
    let call_sign = match decode_field_text(chars, CALL_SIGN_START, FREQUENCY_START) {
        Ok(v) => v,
        Err(e) => {
            return Err(e);
        },
    };
    let frequency = match decode_field_text(chars, FREQUENCY_START, LINE_LENGTH) {
        Ok(v) => v,
        Err(e) => {
            return Err(e);
        },
    };
    Ok(
        Record {
            flarm_id: chars_to_string(&flarm_id),
            pilot_name: chars_to_string(&pilot_name),
            airfield: chars_to_string(&airfield),
            plane_type: chars_to_string(&plane_type),
            registration: chars_to_string(&registration),
            call_sign: chars_to_string(&call_sign),
            frequency: chars_to_string(&frequency),
        },
    )
}

/// Decodes a single FlarmNet record line.
///
/// The line must be exactly [`LINE_LENGTH`] characters of hex digit pairs;
/// the identifier field must decode to a hexadecimal numeral. The contract
/// pins the result, success or error, to [`spec_decode_record`].
pub fn decode_record(line: &str) -> (r: Result<Record, DecodeError>)
    ensures
        record_result_view(r) == spec_decode_record(line@),
{
    let chars = str_chars(line);
    decode_record_chars(&chars)
}

/// A decoded fixed-width file: the version plus, per candidate line in input
/// order, the decoded record or that line's own error.
#[derive(Debug)]
pub struct DecodedFile {
    pub version: u32,
    pub records: Vec<Result<Record, DecodeError>>,
}

/// The mathematical value of a [`DecodedFile`].
#[verifier::ext_equal]
pub struct DecodedFileView {
    pub version: u32,
    pub records: Seq<Result<RecordView, DecodeErrorView>>,
}

/// The outcomes of a record list, as mathematical values.
pub open spec fn record_results_view(rs: Seq<Result<Record, DecodeError>>) -> Seq<
    Result<RecordView, DecodeErrorView>,
>
    decreases rs.len(),
{
    if rs.len() == 0 {
        Seq::empty()
    } else {
        record_results_view(rs.drop_last()).push(record_result_view(rs.last()))
    }
}

impl View for DecodedFile {
    type V = DecodedFileView;

    open spec fn view(&self) -> DecodedFileView {
        DecodedFileView { version: self.version, records: record_results_view(self.records@) }
    }
}

/// The outcome of decoding a whole file, as a mathematical value.
pub open spec fn file_result_view(r: Result<DecodedFile, DecodeError>) -> Result<
    DecodedFileView,
    DecodeErrorView,
> {
    match r {
        Ok(f) => Ok(f@),
        Err(e) => Err(e@),
    }
}

/// The candidate record lines: the non-empty ones, in order.
pub open spec fn candidates(ls: Seq<Seq<char>>) -> Seq<Seq<char>>
    decreases ls.len(),
{
    if ls.len() == 0 {
        Seq::empty()
    } else {
        let rest = candidates(ls.drop_last());
        if ls.last().len() > 0 {
            rest.push(ls.last())
        } else {
            rest
        }
    }
}

/// The decode outcome of every candidate line.
pub open spec fn decode_lines(ls: Seq<Seq<char>>) -> Seq<Result<RecordView, DecodeErrorView>>
    decreases ls.len(),
{
    if ls.len() == 0 {
        Seq::empty()
    } else {
        decode_lines(ls.drop_last()).push(spec_decode_record(ls.last()))
    }
}

/// What decoding a whole fixed-width file yields: `MissingVersion` on a file
/// without lines, `InvalidVersion` when the first line is not a hexadecimal
/// numeral, otherwise the version's value and one outcome per non-empty
/// later line.
pub open spec fn spec_decode_file(s: Seq<char>) -> Result<DecodedFileView, DecodeErrorView> {
    let ls = str_lines(s);
    if ls.len() == 0 {
        Err(DecodeErrorView::MissingVersion)
    } else if !is_hex_numeral_u32(ls[0]) {
        Err(DecodeErrorView::InvalidVersion(ls[0]))
    } else {
        Ok(
            DecodedFileView {
                version: hex_value(ls[0]) as u32,
                records: decode_lines(candidates(ls.skip(1))),
            },
        )
    }
}

/// Decodes a FlarmNet file in the fixed-width format.
///
/// Fails only on a missing or invalid version line; every bad record line
/// is isolated as its own error among the results. The contract pins the
/// whole outcome to [`spec_decode_file`].
pub fn decode_file(file: &str) -> (r: Result<DecodedFile, DecodeError>)
    ensures
        file_result_view(r) == spec_decode_file(file@),
{
    let chars = str_chars(file);
    let lines = split_lines(&chars);
    let ghost ls = str_lines(file@);
    if lines.len() == 0 {
        return Err(DecodeError::MissingVersion);
    }
    let first_len = lines[0].len();
    let version = match parse_hex_u32(&lines[0], 0, first_len) {
        Some(v) => {
            proof {
                assert(lines@[0]@.subrange(0, lines@[0]@.len() as int) =~= ls[0]);
            }
            v
        },
        None => {
            proof {
                assert(lines@[0]@.subrange(0, lines@[0]@.len() as int) =~= ls[0]);
            }
            return Err(DecodeError::InvalidVersion(chars_to_string(&lines[0])));
        },
    };
    let mut records: Vec<Result<Record, DecodeError>> = Vec::new();
    let mut k: usize = 1;
    while k < lines.len()
        invariant
            1 <= k <= lines@.len(),
            lines@.len() == ls.len(),
            forall|i: int| 0 <= i < ls.len() ==> #[trigger] lines@[i]@ == ls[i],
            record_results_view(records@) == decode_lines(candidates(ls.subrange(1, k as int))),
        decreases lines@.len() - k,
    {
        let ghost prev = ls.subrange(1, k as int);
        proof {
            assert(ls.subrange(1, k + 1).drop_last() =~= prev);
            assert(ls.subrange(1, k + 1).last() == ls[k as int]);
        }
        if lines[k].len() > 0 {
            let rec = decode_record_chars(&lines[k]);
            let ghost old_records = records@;
            records.push(rec);
            proof {
                assert(records@.drop_last() =~= old_records);
                assert(records@.last() == rec);
                assert(record_results_view(records@) == record_results_view(old_records).push(
                    record_result_view(rec),
                ));
                assert(lines@[k as int]@ == ls[k as int]);
                assert(candidates(ls.subrange(1, k + 1)) == candidates(prev).push(ls[k as int]));
                assert(candidates(prev).push(ls[k as int]).drop_last() =~= candidates(prev));
                assert(candidates(prev).push(ls[k as int]).last() == ls[k as int]);
                assert(decode_lines(candidates(prev).push(ls[k as int])) == decode_lines(
                    candidates(prev),
                ).push(spec_decode_record(ls[k as int])));
            }
        } else {
            proof {
                assert(candidates(ls.subrange(1, k + 1)) == candidates(prev));
            }
        }
        k = k + 1;
    }
    proof {
        assert(ls.subrange(1, ls.len() as int) =~= ls.skip(1));
    }
    Ok(DecodedFile { version, records })
}

} // verus!
