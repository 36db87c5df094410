//! Decoding of the LX (ciphered XML) FlarmNet format.
//!
//! The input bytes are deciphered, read as UTF-8 text, and parsed as an
//! XML document whose root must be `FLARMNET` with a hexadecimal `Version`
//! attribute. Each `FLARMDATA` child is one candidate record, decoded
//! independently: a whole-file problem (cipher, UTF-8, XML, root, version)
//! aborts everything, a record-level problem is isolated in place.

use vstd::prelude::*;

use crate::lx::cipher;
use crate::lx::cipher::deciphered;
use crate::lx::xml::attr_of;
use crate::lx::xml::child_count_of;
use crate::lx::xml::child_of;
use crate::lx::xml::child_text_of;
use crate::lx::xml::element_attr;
use crate::lx::xml::element_child;
use crate::lx::xml::element_children;
use crate::lx::xml::element_name;
use crate::lx::xml::element_text;
use crate::lx::xml::name_of;
use crate::lx::xml::parse_element;
use crate::lx::xml::root_of;
use crate::lx::xml::xml_parses;
use crate::text::hex_value;
use crate::text::is_hex_numeral_u32;
use crate::text::parse_hex_u32;
use crate::text::str_chars;
use crate::text::str_eq;
use crate::Record;
use crate::RecordView;

verus! {

/// Why an LX file or record was rejected.
#[derive(Debug)]
pub enum DecodeError {
    /// The deciphered text is not a well-formed XML document.
    Xml(minidom::Error),
    /// The deciphered bytes are not valid UTF-8 text.
    Utf8(std::string::FromUtf8Error),
    /// The document's root element is not the named one; carries the
    /// expected name.
    MissingElement(String),
    /// The root element has no `Version` attribute.
    MissingVersion,
    /// The `Version` attribute is not a hexadecimal numeral; carries its
    /// value.
    InvalidVersion(String),
    /// A record element has no `FlarmID` attribute.
    MissingFlarmId,
    /// A record's `FlarmID` attribute is not a hexadecimal numeral;
    /// carries its value.
    InvalidFlarmId(String),
}

/// The mathematical value of a [`DecodeError`].
#[verifier::ext_equal]
pub enum DecodeErrorView {
    Xml,
    Utf8,
    MissingElement(Seq<char>),
    MissingVersion,
    InvalidVersion(Seq<char>),
    MissingFlarmId,
    InvalidFlarmId(Seq<char>),
}

impl View for DecodeError {
    type V = DecodeErrorView;

    open spec fn view(&self) -> DecodeErrorView {
        match self {
            DecodeError::Xml(_) => DecodeErrorView::Xml,
            DecodeError::Utf8(_) => DecodeErrorView::Utf8,
            DecodeError::MissingElement(s) => DecodeErrorView::MissingElement(s@),
            DecodeError::MissingVersion => DecodeErrorView::MissingVersion,
            DecodeError::InvalidVersion(s) => DecodeErrorView::InvalidVersion(s@),
            DecodeError::MissingFlarmId => DecodeErrorView::MissingFlarmId,
            DecodeError::InvalidFlarmId(s) => DecodeErrorView::InvalidFlarmId(s@),
        }
    }
}

/// The outcome of decoding one record element, as a mathematical value.
pub open spec fn record_result_view(r: Result<Record, DecodeError>) -> Result<
    RecordView,
    DecodeErrorView,
> {
    match r {
        Ok(rec) => Ok(rec@),
        Err(e) => Err(e@),
    }
}

/// The characters of an optional string.
pub open spec fn opt_chars(o: Option<String>) -> Option<Seq<char>> {
    match o {
        Some(s) => Some(s@),
        None => None,
    }
}

/// A decoded LX file: the version plus, per `FLARMDATA` element in
/// document order, the decoded record or that record's own error.
#[derive(Debug)]
pub struct DecodedFile {
    pub version: u32,
    pub records: Vec<Result<Record, DecodeError>>,
}

/// The mathematical value of a [`DecodedFile`].
#[verifier::ext_equal]
pub struct DecodedFileView {
    pub version: u32,
    pub records: Seq<Result<RecordView, DecodeErrorView>>,
}

/// The outcomes of a record list, as mathematical values.
pub open spec fn record_results_view(rs: Seq<Result<Record, DecodeError>>) -> Seq<
    Result<RecordView, DecodeErrorView>,
>
    decreases rs.len(),
{
    if rs.len() == 0 {
        Seq::empty()
    } else {
        record_results_view(rs.drop_last()).push(record_result_view(rs.last()))
    }
}

impl View for DecodedFile {
    type V = DecodedFileView;

    open spec fn view(&self) -> DecodedFileView {
        DecodedFileView { version: self.version, records: record_results_view(self.records@) }
    }
}

/// The outcome of decoding a whole file, as a mathematical value.
pub open spec fn file_result_view(r: Result<DecodedFile, DecodeError>) -> Result<
    DecodedFileView,
    DecodeErrorView,
> {
    match r {
        Ok(f) => Ok(f@),
        Err(e) => Err(e@),
    }
}

/// What a record assembled from its parts must be: without an identifier
/// it is `MissingFlarmId`; with a non-hex identifier, `InvalidFlarmId`;
/// otherwise the record, each absent field defaulting to the empty string.
pub open spec fn spec_record_from_parts(
    flarm_id: Option<Seq<char>>,
    pilot_name: Option<Seq<char>>,
    airfield: Option<Seq<char>>,
    plane_type: Option<Seq<char>>,
    registration: Option<Seq<char>>,
    call_sign: Option<Seq<char>>,
    frequency: Option<Seq<char>>,
) -> Result<RecordView, DecodeErrorView> {
    match flarm_id {
        None => Err(DecodeErrorView::MissingFlarmId),
        Some(id) => if !is_hex_numeral_u32(id) {
            Err(DecodeErrorView::InvalidFlarmId(id))
        } else {
            Ok(
                RecordView {
                    flarm_id: id,
                    pilot_name: opt_or_empty(pilot_name),
                    airfield: opt_or_empty(airfield),
                    plane_type: opt_or_empty(plane_type),
                    registration: opt_or_empty(registration),
                    call_sign: opt_or_empty(call_sign),
                    frequency: opt_or_empty(frequency),
                },
            )
        },
    }
}

/// An optional text, absent meaning empty.
pub open spec fn opt_or_empty(o: Option<Seq<char>>) -> Seq<char> {
    match o {
        Some(s) => s,
        None => Seq::empty(),
    }
}

/// Assembles a record from the parts read out of one `FLARMDATA` element.
///
/// This carries the whole record-level decoding logic, proved for every
/// combination of parts the XML layer could hand over.
pub fn record_from_parts(
    flarm_id: Option<String>,
    pilot_name: Option<String>,
    airfield: Option<String>,
    plane_type: Option<String>,
    registration: Option<String>,
    call_sign: Option<String>,
    frequency: Option<String>,
) -> (r: Result<Record, DecodeError>)
    ensures
        record_result_view(r) == spec_record_from_parts(
            opt_chars(flarm_id),
            opt_chars(pilot_name),
            opt_chars(airfield),
            opt_chars(plane_type),
            opt_chars(registration),
            opt_chars(call_sign),
            opt_chars(frequency),
        ),
{
    let id = match flarm_id {
        None => {
            return Err(DecodeError::MissingFlarmId);
        },
        Some(s) => s,
    };
    let id_chars = str_chars(id.as_str());
    if parse_hex_u32(&id_chars, 0, id_chars.len()).is_none() {
        proof {
            assert(id_chars@.subrange(0, id_chars@.len() as int) =~= id@);
        }
        return Err(DecodeError::InvalidFlarmId(id));
    }
    proof {
        assert(id_chars@.subrange(0, id_chars@.len() as int) =~= id@);
    }
    Ok(
        Record {
            flarm_id: id,
            pilot_name: unwrap_or_empty(pilot_name),
            airfield: unwrap_or_empty(airfield),
            plane_type: unwrap_or_empty(plane_type),
            registration: unwrap_or_empty(registration),
            call_sign: unwrap_or_empty(call_sign),
            frequency: unwrap_or_empty(frequency),
        },
    )
}

/// The string itself, or empty when absent.
fn unwrap_or_empty(o: Option<String>) -> (r: String)
    ensures
        r@ == opt_or_empty(opt_chars(o)),
{
    match o {
        Some(s) => s,
        None => String::new(),
    }
}

/// The text of the named direct child element, if that child exists.
fn child_text(e: &minidom::Element, name: &str) -> (r: Option<String>)
    ensures
        opt_chars(r) == child_text_of(*e, name@),
{
    match element_child(e, name) {
        Some(c) => Some(element_text(c)),
        None => None,
    }
}

/// What converting one record element yields: [`spec_record_from_parts`]
/// of the element's `FlarmID` attribute and six named child texts.
pub open spec fn spec_convert(e: minidom::Element) -> Result<RecordView, DecodeErrorView> {
    spec_record_from_parts(
        attr_of(e, "FlarmID"@),
        child_text_of(e, "NAME"@),
        child_text_of(e, "AIRFIELD"@),
        child_text_of(e, "TYPE"@),
        child_text_of(e, "REG"@),
        child_text_of(e, "COMPID"@),
        child_text_of(e, "FREQUENCY"@),
    )
}

/// Converts one `FLARMDATA` element to a [`Record`]: exactly
/// [`spec_convert`] of the element, so a missing identifier gives
/// `MissingFlarmId`, a non-hex one `InvalidFlarmId`, and a successful
/// record carries the attribute and child texts themselves.
pub fn convert(element: &minidom::Element) -> (r: Result<Record, DecodeError>)
    ensures
        record_result_view(r) == spec_convert(*element),
{
    let flarm_id = element_attr(element, "FlarmID");
    let pilot_name = child_text(element, "NAME");
    let airfield = child_text(element, "AIRFIELD");
    let plane_type = child_text(element, "TYPE");
    let registration = child_text(element, "REG");
    let call_sign = child_text(element, "COMPID");
    let frequency = child_text(element, "FREQUENCY");
    record_from_parts(
        flarm_id,
        pilot_name,
        airfield,
        plane_type,
        registration,
        call_sign,
        frequency,
    )
}

/// The direct child elements of the root of document `t`, in order.
pub open spec fn root_children(t: Seq<char>) -> Seq<minidom::Element> {
    Seq::new(child_count_of(root_of(t)), |i: int| child_of(root_of(t), i))
}

/// The candidate record elements: the children named `FLARMDATA`, in
/// document order; children of other names are ignored.
pub open spec fn flarmdata_elems(cs: Seq<minidom::Element>) -> Seq<minidom::Element>
    decreases cs.len(),
{
    if cs.len() == 0 {
        Seq::empty()
    } else {
        let rest = flarmdata_elems(cs.drop_last());
        if name_of(cs.last()) == "FLARMDATA"@ {
            rest.push(cs.last())
        } else {
            rest
        }
    }
}

/// The convert outcome of every candidate element.
pub open spec fn convert_elems(cs: Seq<minidom::Element>) -> Seq<
    Result<RecordView, DecodeErrorView>,
>
    decreases cs.len(),
{
    if cs.len() == 0 {
        Seq::empty()
    } else {
        convert_elems(cs.drop_last()).push(spec_convert(cs.last()))
    }
}

/// What decoding a whole LX file yields. The input's bytes are deciphered:
/// `Utf8` when they are not valid text, `Xml` when the text does not parse,
/// `MissingElement` when the root is not named `FLARMNET`,
/// `MissingVersion`/`InvalidVersion` when its `Version` attribute is absent
/// or not a hexadecimal numeral; otherwise the attribute's value and one
/// [`spec_convert`] outcome per `FLARMDATA` child, in document order.
pub open spec fn spec_decode_file(input: Seq<char>) -> Result<DecodedFileView, DecodeErrorView> {
    let bytes = deciphered(vstd::utf8::encode_utf8(input));
    if !vstd::utf8::valid_utf8(bytes) {
        Err(DecodeErrorView::Utf8)
    } else {
        let t = vstd::utf8::decode_utf8(bytes);
        if !xml_parses(t) {
            Err(DecodeErrorView::Xml)
        } else {
            let root = root_of(t);
            if name_of(root) != "FLARMNET"@ {
                Err(DecodeErrorView::MissingElement("FLARMNET"@))
            } else {
                match attr_of(root, "Version"@) {
                    None => Err(DecodeErrorView::MissingVersion),
                    Some(v) => if !is_hex_numeral_u32(v) {
                        Err(DecodeErrorView::InvalidVersion(v))
                    } else {
                        Ok(
                            DecodedFileView {
                                version: hex_value(v) as u32,
                                records: convert_elems(flarmdata_elems(root_children(t))),
                            },
                        )
                    },
                }
            }
        }
    }
}

/// Decodes a FlarmNet file in LX format.
///
/// The contract pins the whole outcome to [`spec_decode_file`]: each
/// whole-file error comes exactly on its own condition, and a success
/// carries the `Version` attribute's value and one outcome per `FLARMDATA`
/// child of the root, record-level problems isolated in place.
pub fn decode_file(file: &str) -> (r: Result<DecodedFile, DecodeError>)
    ensures
        file_result_view(r) == spec_decode_file(file@),
        file@.len() == 0 ==> r is Err && (r->Err_0)@ is Xml,
{
    proof {
        if file@.len() == 0 {
            assert(vstd::utf8::encode_utf8(file@) =~= Seq::<u8>::empty());
            assert(deciphered(Seq::<u8>::empty()) =~= Seq::<u8>::empty());
            assert(vstd::utf8::valid_utf8(Seq::<u8>::empty()));
            assert(vstd::utf8::decode_utf8(Seq::<u8>::empty()) =~= Seq::<char>::empty());
        }
    }
    let decrypted = match cipher::decrypt(file) {
        Ok(s) => s,
        Err(e) => {
            return Err(DecodeError::Utf8(e));
        },
    };
    let ghost t = decrypted@;
    let root = match parse_element(decrypted.as_str()) {
        Ok(e) => e,
        Err(e) => {
            return Err(DecodeError::Xml(e));
        },
    };
    let name = element_name(&root);
    if !str_eq(name.as_str(), "FLARMNET") {
        return Err(DecodeError::MissingElement("FLARMNET".to_owned()));
    }
    let version_attr = match element_attr(&root, "Version") {
        Some(v) => v,
        None => {
            return Err(DecodeError::MissingVersion);
        },
    };
    let version_chars = str_chars(version_attr.as_str());
    let version = match parse_hex_u32(&version_chars, 0, version_chars.len()) {
        Some(v) => {
            proof {
                assert(version_chars@.subrange(0, version_chars@.len() as int) =~= version_attr@);
            }
            v
        },
        None => {
            proof {
                assert(version_chars@.subrange(0, version_chars@.len() as int) =~= version_attr@);
            }
            return Err(DecodeError::InvalidVersion(version_attr));
        },
    };
    let children = element_children(&root);
    let ghost kids = root_children(t);
    proof {
        assert forall|k: int| 0 <= k < children@.len() implies *(#[trigger] children@[k])
            == kids[k] by {
            assert(*children@[k] == child_of(root, k));
        }
    }
    let mut records: Vec<Result<Record, DecodeError>> = Vec::new();
    let mut i: usize = 0;
    while i < children.len()
        invariant
            0 <= i <= children@.len(),
            children@.len() == kids.len(),
            forall|k: int| 0 <= k < children@.len() ==> *(#[trigger] children@[k]) == kids[k],
            record_results_view(records@) == convert_elems(
                flarmdata_elems(kids.subrange(0, i as int)),
            ),
        decreases children.len() - i,
    {
        let ghost prev = kids.subrange(0, i as int);
        proof {
            assert(kids.subrange(0, i + 1).drop_last() =~= prev);
            assert(kids.subrange(0, i + 1).last() == kids[i as int]);
        }
        let child = children[i];
        let child_name = element_name(child);
        if str_eq(child_name.as_str(), "FLARMDATA") {
            let rec = convert(child);
            let ghost old_records = records@;
            records.push(rec);
            proof {
                assert(records@.drop_last() =~= old_records);
                assert(records@.last() == rec);
                assert(flarmdata_elems(kids.subrange(0, i + 1)) == flarmdata_elems(prev).push(
                    kids[i as int],
                ));
                assert(flarmdata_elems(prev).push(kids[i as int]).drop_last() =~= flarmdata_elems(
                    prev,
                ));
                assert(convert_elems(flarmdata_elems(prev).push(kids[i as int]))
                    == convert_elems(flarmdata_elems(prev)).push(spec_convert(kids[i as int])));
            }
        } else {
            proof {
                assert(flarmdata_elems(kids.subrange(0, i + 1)) == flarmdata_elems(prev));
            }
        }
        i = i + 1;
    }
    proof {
        assert(kids.subrange(0, kids.len() as int) =~= kids);
    }
    Ok(DecodedFile { version, records })
}

} // verus!
