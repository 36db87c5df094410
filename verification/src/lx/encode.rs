//! Encoding into the LX (ciphered XML) FlarmNet format.
//!
//! The document layout is fixed: an XML declaration, a `FLARMNET` root
//! whose `Version` attribute is the six-digit-minimum lowercase hex
//! numeral, and one `FLARMDATA` element per record with the identifier as
//! an attribute and six named child elements, always emitted. Text is
//! XML-escaped; specific newlines and one tab of indent are placed so that
//! output of this codec decodes and re-encodes byte-identically. The
//! assembled text's UTF-8 bytes go through the stream cipher.

use vstd::prelude::*;

use vstd::string::StringExecFns;
use vstd::string::StrSliceExecFns;

use crate::lx::cipher::encrypt_bytes;
use crate::lx::cipher::enciphered;
use crate::text::chars_to_string;
use crate::text::push_hex_u32_min6;
use crate::text::u32_hex_min6;
use crate::File;
use crate::FileView;
use crate::Record;
use crate::RecordView;

verus! {

/// Why an LX encode failed.
///
/// Building the document in memory cannot fail; adapters that stream the
/// ciphered bytes to an external sink report that sink's failure here.
#[derive(Debug)]
pub enum EncodeError {
    /// A sink failed while the ciphered output was being written.
    Io(std::io::Error),
}

/// The mathematical value of an [`EncodeError`].
pub enum EncodeErrorView {
    Io,
}

impl View for EncodeError {
    type V = EncodeErrorView;

    open spec fn view(&self) -> EncodeErrorView {
        match self {
            EncodeError::Io(_) => EncodeErrorView::Io,
        }
    }
}

/// One character, XML-escaped: the five predefined entities stand in for
/// `& < > ' "`, every other character stands for itself.
pub open spec fn escape_char(c: char) -> Seq<char> {
    if c == '&' {
        "&amp;"@
    } else if c == '<' {
        "&lt;"@
    } else if c == '>' {
        "&gt;"@
    } else if c == '\'' {
        "&apos;"@
    } else if c == '"' {
        "&quot;"@
    } else {
        seq![c]
    }
}

/// Text content or an attribute value, XML-escaped character by character.
pub open spec fn escaped(s: Seq<char>) -> Seq<char>
    decreases s.len(),
{
    if s.len() == 0 {
        Seq::empty()
    } else {
        escaped(s.drop_last()) + escape_char(s.last())
    }
}

/// One record's `FLARMDATA` element, whitespace included.
pub open spec fn record_element(r: RecordView) -> Seq<char> {
    "<FLARMDATA FlarmID=\""@ + escaped(r.flarm_id) + "\">\n"@ + "\t<NAME>"@ + escaped(r.pilot_name)
        + "</NAME>\n"@ + "\t<AIRFIELD>"@ + escaped(r.airfield) + "</AIRFIELD>\n"@ + "\t<TYPE>"@
        + escaped(r.plane_type) + "</TYPE>\n"@ + "\t<REG>"@ + escaped(r.registration) + "</REG>\n"@
        + "\t<COMPID>"@ + escaped(r.call_sign) + "</COMPID>\n"@ + "\t<FREQUENCY>"@ + escaped(
        r.frequency,
    ) + "</FREQUENCY>\n"@ + "</FLARMDATA>\n"@
}

/// The record elements, in file order.
pub open spec fn records_elements(rs: Seq<RecordView>) -> Seq<char>
    decreases rs.len(),
{
    if rs.len() == 0 {
        Seq::empty()
    } else {
        records_elements(rs.drop_last()) + record_element(rs.last())
    }
}

/// The whole document, before enciphering.
pub open spec fn lx_document(f: FileView) -> Seq<char> {
    "<?xml version=\"1.0\" encoding=\"UTF-8\"?>\n"@ + "<FLARMNET Version=\""@ + u32_hex_min6(
        f.version,
    ) + "\">\n"@ + records_elements(f.records) + "</FLARMNET>"@
}

/// Appends `value`, XML-escaped, to `doc`.
fn append_escaped(doc: &mut String, value: &str)
    ensures
        final (doc)@ == old(doc)@ + escaped(value@),
{
    let n = value.unicode_len();
    let mut i: usize = 0;
    while i < n
        invariant
            0 <= i <= n == value@.len(),
            doc@ == old(doc)@ + escaped(value@.take(i as int)),
        decreases n - i,
    {
        let c = value.get_char(i);
        if c == '&' {
            doc.append("&amp;");
        } else if c == '<' {
            doc.append("&lt;");
        } else if c == '>' {
            doc.append("&gt;");
        } else if c == '\'' {
            doc.append("&apos;");
        } else if c == '"' {
            doc.append("&quot;");
        } else {
            let one = value.substring_char(i, i + 1);
            proof {
                assert(one@ =~= seq![value@[i as int]]);
            }
            doc.append(one);
        }
        proof {
            assert(value@.take(i + 1).drop_last() =~= value@.take(i as int));
            assert(value@.take(i + 1).last() == value@[i as int]);
            assert(doc@ =~= old(doc)@ + escaped(value@.take(i + 1)));
        }
        i = i + 1;
    }
    proof {
        assert(value@.take(n as int) =~= value@);
    }
}

/// Appends one record's element to `doc`.
fn append_record(doc: &mut String, rec: &Record)
    ensures
        final (doc)@ == old(doc)@ + record_element(rec@),
{
    doc.append("<FLARMDATA FlarmID=\"");
    append_escaped(doc, rec.flarm_id.as_str());
    doc.append("\">\n");
    doc.append("\t<NAME>");
    append_escaped(doc, rec.pilot_name.as_str());
    doc.append("</NAME>\n");
    doc.append("\t<AIRFIELD>");
    append_escaped(doc, rec.airfield.as_str());
    doc.append("</AIRFIELD>\n");
    doc.append("\t<TYPE>");
    append_escaped(doc, rec.plane_type.as_str());
    doc.append("</TYPE>\n");
    doc.append("\t<REG>");
    append_escaped(doc, rec.registration.as_str());
    doc.append("</REG>\n");
    doc.append("\t<COMPID>");
    append_escaped(doc, rec.call_sign.as_str());
    doc.append("</COMPID>\n");
    doc.append("\t<FREQUENCY>");
    append_escaped(doc, rec.frequency.as_str());
    doc.append("</FREQUENCY>\n");
    doc.append("</FLARMDATA>\n");
    proof {
        assert(doc@ =~= old(doc)@ + record_element(rec@));
    }
}

/// Builds the whole document text of `file`.
fn build_document(file: &File) -> (r: String)
    ensures
        r@ == lx_document(file@),
{
    let mut doc = String::new();
    doc.append("<?xml version=\"1.0\" encoding=\"UTF-8\"?>\n");
    doc.append("<FLARMNET Version=\"");
    let mut version: Vec<char> = Vec::new();
    push_hex_u32_min6(&mut version, file.version);
    let version_str = chars_to_string(&version);
    doc.append(version_str.as_str());
    doc.append("\">\n");
    let ghost head = "<?xml version=\"1.0\" encoding=\"UTF-8\"?>\n"@ + "<FLARMNET Version=\""@
        + u32_hex_min6(file@.version) + "\">\n"@;
    proof {
        assert(doc@ =~= head + records_elements(file@.records.take(0)));
    }
    let ghost rs = file@.records;
    let mut i: usize = 0;
    while i < file.records.len()
        invariant
            0 <= i <= file.records@.len(),
            rs == file@.records,
            rs.len() == file.records@.len(),
            doc@ == head + records_elements(rs.take(i as int)),
        decreases file.records@.len() - i,
    {
        append_record(&mut doc, &file.records[i]);
        proof {
            assert(rs[i as int] == file.records@[i as int]@);
            assert(rs.take(i + 1).drop_last() =~= rs.take(i as int));
            assert(rs.take(i + 1).last() == rs[i as int]);
            assert(doc@ =~= head + records_elements(rs.take(i + 1)));
        }
        i = i + 1;
    }
    doc.append("</FLARMNET>");
    proof {
        assert(rs.take(rs.len() as int) =~= rs);
        assert(doc@ =~= lx_document(file@));
    }
    doc
}

/// What the markup encoder emits always deciphers back to valid text:
/// exactly the document that was built. This is the decode half of the
/// markup round trip through the cipher and text layers; the XML parse
/// stage itself stands outside verification and is covered by tests.
pub proof fn lemma_markup_decipherable(f: FileView)
    ensures
        vstd::utf8::valid_utf8(
            crate::lx::cipher::deciphered(enciphered(vstd::utf8::encode_utf8(lx_document(f)))),
        ),
        vstd::utf8::decode_utf8(
            crate::lx::cipher::deciphered(enciphered(vstd::utf8::encode_utf8(lx_document(f)))),
        ) == lx_document(f),
{
    let bytes = vstd::utf8::encode_utf8(lx_document(f));
    crate::lx::cipher::lemma_cipher_roundtrip(bytes);
    vstd::utf8::encode_utf8_valid_utf8(lx_document(f));
    vstd::utf8::encode_utf8_decode_utf8(lx_document(f));
}

/// Encodes a FlarmNet file in LX format: the document text's UTF-8 bytes,
/// enciphered. Building into a buffer always succeeds, and the result is
/// exactly the ciphered bytes of [`lx_document`].
pub fn encode_file(file: &File) -> (r: Result<Vec<u8>, EncodeError>)
    ensures
        r is Ok,
        (r->Ok_0)@ == enciphered(vstd::utf8::encode_utf8(lx_document(file@))),
{
    let doc = build_document(file);
    let bytes = doc.as_str().as_bytes_vec();
    Ok(encrypt_bytes(bytes.as_slice()))
}

} // verus!
