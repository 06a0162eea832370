use naive_bayes::model::{ModelError, NaiveBayesModel};
use naive_bayes::record::{Record, SCHEMA_VERSION};
use naive_bayes::snapshot::{get_default_paths, get_model_dirs, stamp};

fn model_of(samples: &[(&str, &str)]) -> NaiveBayesModel {
    let mut model = NaiveBayesModel::empty();
    for (text, class) in samples {
        assert_eq!(model.collect_data(text, class), Ok(()));
    }
    model
}

fn same_model(a: &NaiveBayesModel, b: &NaiveBayesModel) {
    assert_eq!(a.total_samples(), b.total_samples());
    assert_eq!(a.classes(), b.classes());
    assert_eq!(a.vocabulary(), b.vocabulary());
    for class in a.classes() {
        assert_eq!(a.class_count(&class), b.class_count(&class));
        assert_eq!(a.token_total(&class), b.token_total(&class));
        for token in a.vocabulary() {
            assert_eq!(a.token_count(&class, &token), b.token_count(&class, &token));
        }
    }
}

fn word(n: u64) -> Vec<u8> {
    n.to_le_bytes().to_vec()
}

#[test]
fn round_trip_gives_the_same_model() {
    let model = model_of(&[
        ("buy now win prize", "spam"),
        ("hello friend how are you", "ham"),
        ("win win WIN!", "spam"),
        ("", "blank"),
    ]);
    let bytes = model.to_bytes().expect("encoding failed");
    let loaded = NaiveBayesModel::from_bytes(&bytes).expect("decoding failed");
    same_model(&model, &loaded);
    assert_eq!(loaded.to_bytes(), Ok(bytes));
    assert_eq!(loaded.predict("win prize now".to_string()), model.predict("win prize now".to_string()));
}

#[test]
fn round_trip_of_the_empty_model() {
    let model = NaiveBayesModel::empty();
    let bytes = model.to_bytes().expect("encoding failed");
    let loaded = NaiveBayesModel::from_bytes(&bytes).expect("decoding failed");
    same_model(&model, &loaded);
    assert_eq!(loaded.predict("x".to_string()), Err(ModelError::ModelEmpty));
}

#[test]
fn bytes_are_the_bincode_of_the_record() {
    let model = model_of(&[("a", "x")]);
    let mut expected = vec![1, 0, 0, 0]; // the version of the layout
    expected.extend(word(1)); // one class
    expected.extend(word(1)); // its label has one byte
    expected.push(b'x');
    expected.extend(word(1)); // one sample
    expected.extend(word(1)); // one count
    expected.extend(word(1)); // "a" once
    expected.extend(word(1)); // one word
    expected.extend(word(1)); // of one byte
    expected.push(b'a');
    expected.extend(word(1)); // one sample in all
    assert_eq!(model.to_bytes(), Ok(expected));
}

#[test]
fn new_loads_the_latest_snapshot() {
    let model = model_of(&[("a b", "x"), ("c", "y")]);
    let bytes = model.to_bytes().expect("encoding failed");
    let started = NaiveBayesModel::new(Some(&bytes));
    same_model(&model, &started);
}

#[test]
fn new_falls_back_to_the_empty_model() {
    let none = NaiveBayesModel::new(None);
    assert_eq!(none.total_samples(), 0);
    assert!(none.classes().is_empty());
    let corrupt = NaiveBayesModel::new(Some(&[1, 2, 3]));
    assert_eq!(corrupt.total_samples(), 0);
    assert!(corrupt.classes().is_empty());
    let model = model_of(&[("a b", "x")]);
    let mut bytes = model.to_bytes().expect("encoding failed");
    bytes.truncate(bytes.len() - 1);
    let cut = NaiveBayesModel::new(Some(&bytes));
    assert_eq!(cut.total_samples(), 0);
}

#[test]
fn from_bytes_refuses_what_is_no_snapshot() {
    assert!(matches!(NaiveBayesModel::from_bytes(&[]), Err(ModelError::SerializationFailure)));
    assert!(matches!(NaiveBayesModel::from_bytes(&[0xff; 40]), Err(ModelError::SerializationFailure)));
    // A well-formed record that is no model: one sample in all, but no class.
    let mut bytes = vec![1, 0, 0, 0];
    bytes.extend(word(0));
    bytes.extend(word(0));
    bytes.extend(word(1));
    assert!(matches!(NaiveBayesModel::from_bytes(&bytes), Err(ModelError::SerializationFailure)));
    // The same with no sample is the empty model.
    let mut bytes = vec![1, 0, 0, 0];
    bytes.extend(word(0));
    bytes.extend(word(0));
    bytes.extend(word(0));
    assert!(NaiveBayesModel::from_bytes(&bytes).is_ok());
    // The empty model in the layout of another version.
    bytes[0] = 2;
    assert!(matches!(NaiveBayesModel::from_bytes(&bytes), Err(ModelError::SerializationFailure)));
}

#[test]
fn from_bytes_does_not_trust_lengths() {
    // A label that claims more bytes than there are.
    let mut bytes = vec![1, 0, 0, 0];
    bytes.extend(word(1));
    bytes.extend(word(u64::MAX));
    bytes.extend([b'x'; 8]);
    assert!(matches!(NaiveBayesModel::from_bytes(&bytes), Err(ModelError::SerializationFailure)));
    // More classes than there are bytes.
    let mut bytes = vec![1, 0, 0, 0];
    bytes.extend(word(u64::MAX));
    assert!(matches!(NaiveBayesModel::from_bytes(&bytes), Err(ModelError::SerializationFailure)));
    // A label that is no text.
    let mut bytes = vec![1, 0, 0, 0];
    bytes.extend(word(1));
    bytes.extend(word(2));
    bytes.extend([0xc3, 0x28]);
    bytes.extend(word(1));
    bytes.extend(word(0));
    bytes.extend(word(0));
    bytes.extend(word(1));
    assert!(matches!(NaiveBayesModel::from_bytes(&bytes), Err(ModelError::SerializationFailure)));
}

fn record(classes: &[(&str, u64, &[u64])], words: &[&str], total: u64) -> Record {
    (
        SCHEMA_VERSION,
        classes.iter().map(|(l, s, c)| (l.to_string(), *s, c.to_vec())).collect(),
        words.iter().map(|w| w.to_string()).collect(),
        total,
    )
}

#[test]
fn to_record_lists_the_counts() {
    let model = model_of(&[("a b a", "x"), ("b c", "y"), ("c", "x")]);
    let expected = record(&[("x", 2, &[2, 1, 1]), ("y", 1, &[0, 1, 1])], &["a", "b", "c"], 3);
    assert_eq!(model.to_record(), expected);
}

#[test]
fn from_record_takes_a_valid_record() {
    let given = record(&[("x", 2, &[2, 1, 1]), ("y", 1, &[0, 1])], &["a", "b", "c"], 3);
    let model = NaiveBayesModel::from_record(&given).expect("a valid record was refused");
    assert_eq!(model.total_samples(), 3);
    assert_eq!(model.classes(), vec!["x".to_string(), "y".to_string()]);
    assert_eq!(model.class_count("x"), 2);
    assert_eq!(model.token_count("x", "a"), 2);
    assert_eq!(model.token_count("y", "a"), 0);
    assert_eq!(model.token_count("y", "c"), 0);
    assert_eq!(model.token_total("x"), 4);
    assert_eq!(model.token_total("y"), 1);
    assert_eq!(model.to_record(), given);
    // x: 2 * 3/7; y: 1 * 1/4.
    assert_eq!(model.predict("a".to_string()), Ok("x".to_string()));
}

#[test]
fn from_record_refuses_what_is_no_model() {
    let refused = [
        // a label twice
        record(&[("x", 1, &[1]), ("x", 1, &[1])], &["a"], 2),
        // a word twice
        record(&[("x", 1, &[1, 1])], &["a", "a"], 1),
        // a class without a sample
        record(&[("x", 0, &[1])], &["a"], 0),
        // more counts than words
        record(&[("x", 1, &[1, 1])], &["a"], 1),
        // a total that is not the sum
        record(&[("x", 1, &[1]), ("y", 2, &[1])], &["a"], 4),
        // sample counts beyond a machine word
        record(&[("x", u64::MAX, &[1]), ("y", 1, &[1])], &["a"], 0),
        // token counts beyond a machine word
        record(&[("x", 1, &[u64::MAX, 1])], &["a", "b"], 1),
        // a word that no class has counted
        record(&[("x", 1, &[1, 0]), ("y", 1, &[2])], &["a", "b"], 2),
        record(&[], &["a"], 0),
    ];
    for given in refused.iter() {
        assert!(NaiveBayesModel::from_record(given).is_none());
    }
    // the layout of another version
    let mut other = record(&[("x", 1, &[1])], &["a"], 1);
    assert!(NaiveBayesModel::from_record(&other).is_some());
    other.0 = SCHEMA_VERSION + 1;
    assert!(NaiveBayesModel::from_record(&other).is_none());
}

#[test]
fn paths_are_built_from_class_and_stamp() {
    let (latest, version) = get_default_paths("spam", "2024-05-06--07-08-09");
    assert_eq!(latest, "model/model.bin");
    assert_eq!(version, "model/versions/model--spam--2024-05-06--07-08-09.bin");
    let (_, plain) = get_default_paths("", "");
    assert_eq!(plain, "model/versions/model----.bin");
    assert_eq!(get_model_dirs(), ("model".to_string(), "model/versions".to_string()));
}

#[test]
fn snapshot_holds_paths_and_bytes() {
    let model = model_of(&[("a b", "x")]);
    let snapshot = model.snapshot("x", "1999-12-31--23-59-59").expect("no snapshot");
    assert_eq!(snapshot.latest_path, "model/model.bin");
    assert_eq!(snapshot.version_path, "model/versions/model--x--1999-12-31--23-59-59.bin");
    assert_eq!(Ok(snapshot.bytes), model.to_bytes());
}

#[test]
fn save_stamps_the_version_with_the_time() {
    let model = model_of(&[("a b", "x")]);
    let snapshot = model.save("x").expect("no snapshot");
    assert_eq!(snapshot.latest_path, "model/model.bin");
    let prefix = "model/versions/model--x--";
    assert!(snapshot.version_path.starts_with(prefix));
    assert!(snapshot.version_path.ends_with(".bin"));
    let stamp = &snapshot.version_path[prefix.len()..snapshot.version_path.len() - 4];
    // year-month-day--hour-minute-second
    let shape: String = stamp.chars().map(|c| if c.is_ascii_digit() { '0' } else { c }).collect();
    assert_eq!(shape, "0000-00-00--00-00-00");
    // the clock of this run stands after the day on which this was written
    assert!(stamp > "2024-01-01--00-00-00");
    let loaded = NaiveBayesModel::from_bytes(&snapshot.bytes).expect("decoding failed");
    same_model(&model, &loaded);
}

#[test]
fn stamp_writes_the_time_in_utc() {
    assert_eq!(stamp(0), Some("1970-01-01--00-00-00".to_string()));
    assert_eq!(stamp(1_715_000_000), Some("2024-05-06--12-53-20".to_string()));
    // the last second of a leap day
    assert_eq!(stamp(951_782_399), Some("2000-02-28--23-59-59".to_string()));
    assert_eq!(stamp(951_782_400), Some("2000-02-29--00-00-00".to_string()));
    // the last second of a four-digit year, and the first of a year with five
    assert_eq!(stamp(253_402_300_799), Some("9999-12-31--23-59-59".to_string()));
    assert_eq!(stamp(253_402_300_800), Some("+10000-01-01--00-00-00".to_string()));
}

#[test]
fn stamp_has_its_shape_and_bounds() {
    for secs in [0u64, 59, 86_399, 1_000_000_000, 4_102_444_800, 253_402_300_800, 8_210_266_876_799] {
        let text = stamp(secs).expect("a time within the range has a stamp");
        assert!(text.len() >= 20);
        assert!(text.chars().all(|c| c.is_ascii_digit() || c == '-' || c == '+'));
    }
    // beyond the years that a date can hold
    assert_eq!(stamp(8_210_266_876_800), None);
    assert_eq!(stamp(i64::MAX as u64), None);
    assert_eq!(stamp(i64::MAX as u64 + 1), None);
    assert_eq!(stamp(u64::MAX), None);
}

#[test]
fn snapshot_at_stamps_the_version() {
    let model = model_of(&[("a b", "x")]);
    let snapshot = model.snapshot_at("x", 1_715_000_000).expect("no snapshot");
    assert_eq!(snapshot.latest_path, "model/model.bin");
    assert_eq!(snapshot.version_path, "model/versions/model--x--2024-05-06--12-53-20.bin");
    assert_eq!(Ok(snapshot.bytes), model.to_bytes());
    assert_eq!(model.snapshot_at("x", 1_715_000_000), model.snapshot("x", "2024-05-06--12-53-20"));
}

#[test]
fn snapshot_at_a_time_without_a_stamp_fails() {
    let model = model_of(&[("a b", "x")]);
    assert_eq!(model.snapshot_at("x", u64::MAX), Err(ModelError::TimestampUnavailable));
    assert_eq!(model.snapshot_at("x", 8_210_266_876_800), Err(ModelError::TimestampUnavailable));
}
