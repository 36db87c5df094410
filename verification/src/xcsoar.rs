//! Codec for the LXNavigation/XCSoar/WinPilot/LK8000/ClearNav FlarmNet file
//! format: line-oriented text, one hexadecimal version line followed by one
//! fixed-width hex-encoded line per record.

mod decode;
mod encode;
pub mod fields;
mod roundtrip;

pub use roundtrip::all_ok;
pub use roundtrip::lemma_fixed_width_roundtrip;
pub use roundtrip::lemma_fw_bytes_text;
pub use roundtrip::lemma_record_roundtrip;
pub use roundtrip::lemma_version_numeral;
pub use roundtrip::roundtrip_file;
pub use roundtrip::roundtrip_record;

pub use decode::decode_file;
pub use decode::decode_record;
pub use decode::record_result_view;
pub use decode::spec_decode_file;
pub use decode::spec_decode_record;
pub use decode::DecodeError;
pub use decode::DecodeErrorView;
pub use decode::DecodedFile;
pub use decode::DecodedFileView;
pub use encode::encode_file;
pub use encode::file_bad_value;
pub use encode::fw_field;
pub use encode::fw_file_bytes;
pub use encode::push_field;
pub use encode::fw_file_chars;
pub use encode::record_line;
pub use encode::EncodeError;
pub use encode::EncodeErrorView;
