//! Codec for the LXNav/Naviter FlarmNet file format.
//!
//! The format is an XML document "encrypted" by shifting each byte up by
//! one. After deciphering, the structure looks like this:
//!
//! ```xml
//! <?xml version="1.0" encoding="UTF-8"?>
//! <FLARMNET Version="012345">
//! <FLARMDATA FlarmID="000001">
//!     <NAME>John Doe</NAME>
//!     <AIRFIELD>EDKA</AIRFIELD>
//!     <TYPE>ASG 29</TYPE>
//!     <REG>D-KESH</REG>
//!     <COMPID>AS</COMPID>
//!     <FREQUENCY>123.500</FREQUENCY>
//! </FLARMDATA>
//! </FLARMNET>
//! ```

pub mod cipher;
mod decode;
mod encode;
mod xml;

pub use decode::convert;
pub use decode::convert_elems;
pub use decode::decode_file;
pub use decode::file_result_view;
pub use decode::flarmdata_elems;
pub use decode::record_from_parts;
pub use decode::record_result_view;
pub use decode::record_results_view;
pub use decode::root_children;
pub use decode::spec_convert;
pub use decode::spec_decode_file;
pub use decode::spec_record_from_parts;
pub use decode::DecodeError;
pub use decode::DecodeErrorView;
pub use decode::DecodedFile;
pub use decode::DecodedFileView;
pub use encode::encode_file;
pub use encode::escaped;
pub use encode::lemma_markup_decipherable;
pub use encode::lx_document;
pub use encode::record_element;
pub use encode::EncodeError;
pub use encode::EncodeErrorView;
pub use xml::attr_of;
pub use xml::child_count_of;
pub use xml::child_of;
pub use xml::child_text_of;
pub use xml::element_attr;
pub use xml::element_child;
pub use xml::element_children;
pub use xml::element_name;
pub use xml::element_text;
pub use xml::name_of;
pub use xml::parse_element;
pub use xml::root_of;
pub use xml::text_of;
pub use xml::xml_parses;
