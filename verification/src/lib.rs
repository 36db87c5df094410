//! Codecs for FlarmNet aircraft-identification files.
//!
//! A FlarmNet file is a version number together with an ordered list of
//! [`Record`]s. Two incompatible on-disk encodings exist: a fixed-width,
//! hex-encoded flat-text layout (see [`xcsoar`]) and an XML document
//! obscured by a byte-shift cipher (see [`lx`]). Both codecs translate
//! between raw bytes or text and the shared [`File`] value type.

use vstd::prelude::*;

pub mod lx;
pub mod text;
pub mod xcsoar;

verus! {

/// One aircraft-identification entry: seven free-form text fields.
///
/// Only `flarm_id` carries a model-level invariant — both codecs reject
/// records whose identifier is not a hexadecimal numeral — but the type
/// itself accepts any strings, so that a decode can report such problems
/// per record instead of refusing construction.
#[derive(Debug, Clone)]
pub struct Record {
    pub flarm_id: String,
    pub pilot_name: String,
    pub airfield: String,
    pub plane_type: String,
    pub registration: String,
    pub call_sign: String,
    pub frequency: String,
}

/// The mathematical value of a [`Record`]: its seven fields as character
/// sequences.
#[verifier::ext_equal]
pub struct RecordView {
    pub flarm_id: Seq<char>,
    pub pilot_name: Seq<char>,
    pub airfield: Seq<char>,
    pub plane_type: Seq<char>,
    pub registration: Seq<char>,
    pub call_sign: Seq<char>,
    pub frequency: Seq<char>,
}

impl View for Record {
    type V = RecordView;

    open spec fn view(&self) -> RecordView {
        RecordView {
            flarm_id: self.flarm_id@,
            pilot_name: self.pilot_name@,
            airfield: self.airfield@,
            plane_type: self.plane_type@,
            registration: self.registration@,
            call_sign: self.call_sign@,
            frequency: self.frequency@,
        }
    }
}

impl PartialEq for Record {
    fn eq(&self, other: &Record) -> (r: bool) {
        let same = self.flarm_id == other.flarm_id && self.pilot_name == other.pilot_name
            && self.airfield == other.airfield && self.plane_type == other.plane_type
            && self.registration == other.registration && self.call_sign == other.call_sign
            && self.frequency == other.frequency;
        proof {
            if same {
                assert(self@ =~= other@);
            }
        }
        same
    }
}

impl Eq for Record {}

impl vstd::std_specs::cmp::PartialEqSpecImpl for Record {
    open spec fn obeys_eq_spec() -> bool {
        true
    }

    open spec fn eq_spec(&self, other: &Record) -> bool {
        self@ == other@
    }
}

/// A whole FlarmNet file: an unsigned version number plus the records in
/// their significant order.
#[derive(Debug, Clone)]
pub struct File {
    pub version: u32,
    pub records: Vec<Record>,
}

/// The mathematical value of a [`File`].
#[verifier::ext_equal]
pub struct FileView {
    pub version: u32,
    pub records: Seq<RecordView>,
}

impl View for File {
    type V = FileView;

    open spec fn view(&self) -> FileView {
        FileView { version: self.version, records: self.records@.map_values(|r: Record| r@) }
    }
}

impl PartialEq for File {
    fn eq(&self, other: &File) -> (r: bool) {
        if self.version != other.version {
            return false;
        }
        if self.records.len() != other.records.len() {
            proof {
                assert(self@.records.len() != other@.records.len());
            }
            return false;
        }
        let n = self.records.len();
        for i in 0..n
            invariant
                n == self.records@.len() == other.records@.len(),
                self@.version == other@.version,
                forall|j: int| 0 <= j < i ==> self@.records[j] == other@.records[j],
        {
            if !(self.records[i] == other.records[i]) {
                proof {
                    assert(self@.records[i as int] != other@.records[i as int]);
                }
                return false;
            }
        }
        proof {
            assert(self@.records =~= other@.records);
            assert(self@ =~= other@);
        }
        true
    }
}

impl Eq for File {}

impl vstd::std_specs::cmp::PartialEqSpecImpl for File {
    open spec fn obeys_eq_spec() -> bool {
        true
    }

    open spec fn eq_spec(&self, other: &File) -> bool {
        self@.version == other@.version && self@.records == other@.records
    }
}

} // verus!
