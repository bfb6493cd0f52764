use layercfg::file::{File, FileFailureKind, FileOutcome, DEFAULT_MAX_FILE_SIZE_BYTES};
use layercfg::item::ConfigurationItem;
use layercfg::value::{RawValue, ValueKind};
use layercfg::RejectReason;

#[test]
fn oversized_file_is_classified_before_any_read() {
    let decision = File::evaluate_metadata(false, 5000, 4096);
    assert_eq!(
        decision,
        Some(FileOutcome::FileIsTooLarge {
            file_size_bytes: 5000
        })
    );
}

#[test]
fn directory_is_classified_before_any_read() {
    let decision = File::evaluate_metadata(true, 0, 4096);
    assert_eq!(decision, Some(FileOutcome::PathRefersToADirectory));
}

#[test]
fn file_within_threshold_goes_on_to_be_read() {
    let decision = File::evaluate_metadata(false, 4096, DEFAULT_MAX_FILE_SIZE_BYTES);
    assert_eq!(decision, None);
}

#[test]
fn successful_read_supplies_bytes() {
    let file = File::new(
        "settings.bin".into(),
        4096,
        FileOutcome::Success {
            buf: vec![1, 2, 3],
            num_bytes_read: 3,
        },
    );
    let mut ci = ConfigurationItem::new("Blob".to_string(), None, ValueKind::Bytes);
    let res = file.try_get(&mut ci);
    assert!(res.is_none());
    assert_eq!(ci.get(), &Some(RawValue::Bytes(vec![1, 2, 3])));
}

#[test]
fn failed_open_is_an_io_rejection() {
    let file = File::new(
        "missing.bin".into(),
        4096,
        FileOutcome::ErrorAttemptingToOpenFile {
            err: "no such file".into(),
        },
    );
    let mut ci = ConfigurationItem::new("Blob".to_string(), None, ValueKind::Bytes);
    let res = file.try_get(&mut ci);
    assert_eq!(
        res,
        Some(RejectReason::IOError {
            kind: FileFailureKind::OpenError
        })
    );
    assert_eq!(ci.get(), &None);
}

#[test]
fn oversized_file_is_an_io_rejection_when_used_as_a_source() {
    let file = File::new(
        "big.bin".into(),
        4096,
        FileOutcome::FileIsTooLarge {
            file_size_bytes: 5000,
        },
    );
    let mut ci = ConfigurationItem::new("Blob".to_string(), None, ValueKind::Bytes);
    let res = file.try_get(&mut ci);
    assert_eq!(
        res,
        Some(RejectReason::IOError {
            kind: FileFailureKind::TooLarge
        })
    );
}

#[test]
fn bytes_do_not_coerce_into_a_text_item() {
    let file = File::new(
        "settings.bin".into(),
        4096,
        FileOutcome::Success {
            buf: vec![0xff],
            num_bytes_read: 1,
        },
    );
    let mut ci = ConfigurationItem::new("Greeting".to_string(), None, ValueKind::Text);
    let res = file.try_get(&mut ci);
    match res {
        Some(RejectReason::ValueRejected { key, value, reason }) => {
            assert_eq!(key, "settings.bin");
            assert_eq!(value, RawValue::Bytes(vec![0xff]));
            assert_eq!(reason, layercfg::value::AcceptError::ValueNotHandled);
        }
        other => panic!("expected a rejected value, got {:?}", other),
    }
}
