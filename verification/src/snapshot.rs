//! Snapshots: a model as bytes, the names of the files that hold it, and a model
//! from the bytes of a snapshot.
//!
//! Nothing here touches a file. A snapshot says what is to be written, and where.

use crate::model::{ModelError, NaiveBayesModel};
use crate::record::{record_model, record_valid, Record, RecordView};
use crate::view::ModelView;
use vstd::prelude::*;

verus! {

#[verifier::external_type_specification]
#[verifier::external_body]
pub struct ExErrorKind(bincode::ErrorKind);

/// The bytes that bincode writes for a record, if it writes any.
pub uninterp spec fn bincode_encoding(record: RecordView) -> Option<Seq<u8>>;

/// The record that bincode reads from bytes, if it reads one.
pub uninterp spec fn bincode_decoding(bytes: Seq<u8>) -> Option<RecordView>;

/// `bincode::serialize`: the encoding of the record in bincode's default
/// configuration, or bincode's error.
///
/// Two things are taken on trust. The bytes depend on the record alone. And what
/// bincode has written it reads back: `bincode::deserialize` gives the record again
/// from these bytes, which is what the crate's documentation shows of the two.
#[verifier::external_body]
fn encode(record: &Record) -> (r: Result<Vec<u8>, bincode::Error>)
    ensures
        match r {
            Ok(bytes) => {
                &&& bincode_encoding(record.deep_view()) == Some(bytes@)
                &&& bincode_decoding(bytes@) == Some(record.deep_view())
            },
            Err(_) => bincode_encoding(record.deep_view()) is None,
        },
{
    bincode::serialize(record)
}

/// `bincode::deserialize`: the record that the bytes encode in bincode's default
/// configuration, or bincode's error. That the outcome depends on the bytes alone is
/// taken on trust.
#[verifier::external_body]
fn decode(bytes: &[u8]) -> (r: Result<Record, bincode::Error>)
    ensures
        match r {
            Ok(record) => bincode_decoding(bytes@) == Some(record.deep_view()),
            Err(_) => bincode_decoding(bytes@) is None,
        },
{
    bincode::deserialize(bytes)
}

/// The text that chrono writes, to a pattern, for the time so many seconds after
/// 1970 began in UTC, if it writes one.
pub uninterp spec fn chrono_utc_text(secs: i64, pattern: Seq<char>) -> Option<Seq<char>>;

/// The pattern of a stamp: year, month, day, hour, minute and second, in numbers.
pub open spec fn stamp_pattern() -> Seq<char> {
    "%Y-%m-%d--%H-%M-%S"@
}

/// Whether `c` can stand in a stamp: a digit, a hyphen, or the sign of a year of
/// more than four digits.
pub open spec fn is_stamp_char(c: char) -> bool {
    ('0' <= c && c <= '9') || c == '-' || c == '+'
}

/// Whether `s` has the shape of a stamp: at least the twenty characters of a
/// four-digit year, and none but digits, hyphens and a sign. No stamp holds a path
/// separator.
pub open spec fn is_stamp(s: Seq<char>) -> bool {
    &&& s.len() >= 20
    &&& forall|i: int| 0 <= i < s.len() ==> is_stamp_char(#[trigger] s[i])
}

/// `std::time::SystemTime::now` with `duration_since(UNIX_EPOCH)`: the whole seconds
/// that the system clock stands after 1970 began, or nothing where it stands before.
/// Nothing is claimed of the number.
#[verifier::external_body]
fn unix_seconds() -> (secs: Option<u64>) {
    match std::time::SystemTime::now().duration_since(std::time::UNIX_EPOCH) {
        Ok(since) => Some(since.as_secs()),
        Err(_) => None,
    }
}

/// `chrono::DateTime::from_timestamp`, `DateTime::format` and `DelayedFormat::write_to`:
/// the time so many seconds after 1970 began in UTC, written to the pattern; nothing
/// where chrono cannot hold the time or write it.
///
/// The contract speaks of the pattern of a stamp only. The text depends on the seconds
/// alone. Of its shape it is claimed what chrono's formatting shows for this pattern:
/// the five fields after the year are two digits each, the year is four digits or
/// more, with a sign only where it has more than four or is negative, and the fields
/// are joined by the hyphens of the pattern.
#[verifier::external_body]
fn utc_text(secs: i64, pattern: &str) -> (text: Option<String>)
    requires
        pattern@ == stamp_pattern(),
    ensures
        match text {
            Some(t) => chrono_utc_text(secs, pattern@) == Some(t@) && is_stamp(t@),
            None => chrono_utc_text(secs, pattern@) is None,
        },
{
    let time = chrono::DateTime::from_timestamp(secs, 0)?;
    let mut text = String::new();
    match time.format(pattern).write_to(&mut text) {
        Ok(()) => Some(text),
        Err(_) => None,
    }
}

/// The stamp of the time `secs` seconds after 1970 began in UTC, if the time has one.
pub open spec fn stamp_at(secs: u64) -> Option<Seq<char>> {
    if secs <= i64::MAX {
        chrono_utc_text(secs as i64, stamp_pattern())
    } else {
        None
    }
}

/// The directory of the latest snapshot.
pub open spec fn model_dir_of() -> Seq<char> {
    "model"@
}

/// The directory of the versioned snapshots.
pub open spec fn version_dir_of() -> Seq<char> {
    "model/versions"@
}

/// The file that holds the latest snapshot.
pub open spec fn latest_path_of() -> Seq<char> {
    "model/model.bin"@
}

/// The file that holds the snapshot taken at `stamp` after training `class`.
pub open spec fn version_path_of(class: Seq<char>, stamp: Seq<char>) -> Seq<char> {
    "model/versions/model--"@ + class + "--"@ + stamp + ".bin"@
}

/// The model that the bytes of a snapshot hold: the record that bincode reads from them,
/// if it reads one and the record is a model.
pub open spec fn decoded(bytes: Seq<u8>) -> Option<ModelView> {
    match bincode_decoding(bytes) {
        Some(record) => if record_valid(record) {
            Some(record_model(record))
        } else {
            None
        },
        None => None,
    }
}

/// What is to be written after a training: the same bytes to both files.
#[derive(Debug, PartialEq, Eq)]
pub struct Snapshot {
    /// The file of the latest snapshot, which is overwritten.
    pub latest_path: String,
    /// The file of this version, which is new.
    pub version_path: String,
    /// The model.
    pub bytes: Vec<u8>,
}

/// The directory of the latest snapshot and that of the versions.
pub fn get_model_dirs() -> (dirs: (String, String))
    ensures
        dirs.0@ == model_dir_of(),
        dirs.1@ == version_dir_of(),
{
    (String::from_str("model"), String::from_str("model/versions"))
}

/// The file of the latest snapshot, and that of the version taken at `stamp` after
/// training `class`.
pub fn get_default_paths(class: &str, stamp: &str) -> (paths: (String, String))
    ensures
        paths.0@ == latest_path_of(),
        paths.1@ == version_path_of(class@, stamp@),
{
    let latest = String::from_str("model/model.bin");
    let mut version = String::from_str("model/versions/model--");
    version.append(class);
    version.append("--");
    version.append(stamp);
    version.append(".bin");
    (latest, version)
}

/// The stamp of the time `secs` seconds after 1970 began in UTC, if the time has one.
pub fn stamp(secs: u64) -> (r: Option<String>)
    ensures
        match r {
            Some(text) => stamp_at(secs) == Some(text@) && is_stamp(text@),
            None => stamp_at(secs) is None,
        },
{
    if secs > i64::MAX as u64 {
        return None;
    }
    utc_text(secs as i64, "%Y-%m-%d--%H-%M-%S")
}

impl NaiveBayesModel {
    /// Whether `snapshot` is the snapshot of this model taken at `stamp` after training `class`.
    pub open spec fn is_snapshot(&self, class: Seq<char>, stamp: Seq<char>, snapshot: Snapshot) -> bool {
        &&& snapshot.latest_path@ == latest_path_of()
        &&& snapshot.version_path@ == version_path_of(class, stamp)
        &&& bincode_encoding(self.record()) == Some(snapshot.bytes@)
        &&& decoded(snapshot.bytes@) == Some(self@)
    }

    /// The model as bytes. What these bytes hold is this model: reading a snapshot
    /// back gives a model equal in every field.
    pub fn to_bytes(&self) -> (r: Result<Vec<u8>, ModelError>)
        requires
            self.wf(),
        ensures
            match r {
                Ok(bytes) => bincode_encoding(self.record()) == Some(bytes@) && decoded(bytes@) == Some(self@),
                Err(e) => e == ModelError::SerializationFailure && bincode_encoding(self.record()) is None,
            },
    {
        let record = self.to_record();
        match encode(&record) {
            Ok(bytes) => Ok(bytes),
            Err(_) => Err(ModelError::SerializationFailure),
        }
    }

    /// The model that the bytes of a snapshot hold, if they hold one.
    pub fn from_bytes(bytes: &[u8]) -> (r: Result<NaiveBayesModel, ModelError>)
        ensures
            match r {
                Ok(model) => model.wf() && decoded(bytes@) == Some(model@),
                Err(e) => e == ModelError::SerializationFailure && decoded(bytes@) is None,
            },
    {
        match decode(bytes) {
            Ok(record) => match NaiveBayesModel::from_record(&record) {
                Some(model) => Ok(model),
                None => Err(ModelError::SerializationFailure),
            },
            Err(_) => Err(ModelError::SerializationFailure),
        }
    }

    /// The model with which a process starts: the one that the latest snapshot
    /// holds, or the empty model where there is no snapshot or it holds no model.
    pub fn new(latest: Option<&[u8]>) -> (model: NaiveBayesModel)
        ensures
            model.wf(),
            model@ == match latest {
                Some(bytes) => match decoded(bytes@) {
                    Some(held) => held,
                    None => ModelView::empty(),
                },
                None => ModelView::empty(),
            },
    {
        match latest {
            Some(bytes) => match NaiveBayesModel::from_bytes(bytes) {
                Ok(model) => model,
                Err(_) => NaiveBayesModel::empty(),
            },
            None => NaiveBayesModel::empty(),
        }
    }

    /// The snapshot of this model taken at `stamp` after training `class`.
    pub fn snapshot(&self, class: &str, stamp: &str) -> (r: Result<Snapshot, ModelError>)
        requires
            self.wf(),
        ensures
            match r {
                Ok(snapshot) => self.is_snapshot(class@, stamp@, snapshot),
                Err(e) => e == ModelError::SerializationFailure && bincode_encoding(self.record()) is None,
            },
    {
        let bytes = match self.to_bytes() {
            Ok(bytes) => bytes,
            Err(e) => {
                return Err(e);
            },
        };
        let (latest_path, version_path) = get_default_paths(class, stamp);
        Ok(Snapshot { latest_path, version_path, bytes })
    }

    /// Whether `r` is what saving this model after training `class` gives at the time
    /// `secs` seconds after 1970 began: no snapshot where the time has no stamp or the
    /// model no bytes, and else the snapshot with that stamp.
    pub open spec fn saved_at(&self, class: Seq<char>, secs: u64, r: Result<Snapshot, ModelError>) -> bool {
        match stamp_at(secs) {
            None => r matches Err(e) && e == ModelError::TimestampUnavailable,
            Some(stamp) => match r {
                Ok(snapshot) => is_stamp(stamp) && self.is_snapshot(class, stamp, snapshot),
                Err(e) => e == ModelError::SerializationFailure && bincode_encoding(self.record()) is None,
            },
        }
    }

    /// Whether `r` is what saving this model after training `class` can give: what it
    /// gives at some time, or no snapshot because the clock could not be read.
    pub open spec fn save_outcome(&self, class: Seq<char>, r: Result<Snapshot, ModelError>) -> bool {
        ||| r matches Err(e) && e == ModelError::TimestampUnavailable
        ||| exists|secs: u64| self.saved_at(class, secs, r)
    }

    /// The snapshot of this model taken `secs` seconds after 1970 began in UTC, after
    /// training `class`.
    pub fn snapshot_at(&self, class: &str, secs: u64) -> (r: Result<Snapshot, ModelError>)
        requires
            self.wf(),
        ensures
            self.saved_at(class@, secs, r),
    {
        match stamp(secs) {
            Some(text) => self.snapshot(class, text.as_str()),
            None => Err(ModelError::TimestampUnavailable),
        }
    }

    /// The snapshot of this model taken now, after training `class`.
    pub fn save(&self, class: &str) -> (r: Result<Snapshot, ModelError>)
        requires
            self.wf(),
        ensures
            self.save_outcome(class@, r),
    {
        match unix_seconds() {
            Some(secs) => self.snapshot_at(class, secs),
            None => Err(ModelError::TimestampUnavailable),
        }
    }
}

} // verus!
