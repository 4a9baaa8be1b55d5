use transfer_wire::controller::{Controller, Phase, ReadOutcome, StreamRead};
use transfer_wire::error::DecodeError;
use transfer_wire::object::manifest::Manifest;
use transfer_wire::object::progress_report::ProgressReport;
use transfer_wire::request::{prepare_package, RequestData, RequestType};
use uuid::Uuid;

fn report_message() -> Vec<u8> {
    prepare_package(
        RequestType::DownloadResource,
        Box::new(ProgressReport::new(Uuid::from_bytes([9; 16]), 5, vec![3, 7])),
    )
}

fn manifest_message() -> Vec<u8> {
    prepare_package(
        RequestType::SendManifest,
        Box::new(Manifest::new(Uuid::from_bytes([4; 16]), "movie.mkv".to_string(), 1032, 3, 3000)),
    )
}

fn assert_is_the_report(outcome: ReadOutcome) {
    match outcome {
        ReadOutcome::Completed(RequestData::DownloadResource(report)) => {
            assert_eq!(report.id(), Uuid::from_bytes([9; 16]));
            assert_eq!(report.chunk_index(), 5);
            assert_eq!(report.missed_chunks(), &vec![3, 7]);
        }
        _ => panic!("the progress report was expected"),
    }
}

fn assert_is_the_manifest(outcome: ReadOutcome) {
    match outcome {
        ReadOutcome::Completed(RequestData::SendManifest(manifest)) => {
            assert_eq!(manifest.id(), Uuid::from_bytes([4; 16]));
            assert_eq!(manifest.name(), "movie.mkv");
            assert_eq!(manifest.chunk_size(), 1032);
            assert_eq!(manifest.total_chunks(), 3);
            assert_eq!(manifest.last_payload_bytes(), 72);
        }
        _ => panic!("the manifest was expected"),
    }
}

/// Feeds the message cut at the given places and checks that only the last
/// call reports something, which it returns.
fn feed_in_pieces(controller: &mut Controller, message: &[u8], cuts: &[usize]) -> ReadOutcome {
    let mut start = 0;
    for &cut in cuts {
        let outcome = controller.read(StreamRead::Data(&message[start..cut]));
        assert!(matches!(outcome, ReadOutcome::Pending), "cut at {}", cut);
        start = cut;
    }
    controller.read(StreamRead::Data(&message[start..]))
}

#[test]
fn tagged_progress_report_example() {
    // Tag 1, a 48-byte payload: an all-zero id, chunk index 5, two missed
    // chunks, 3 and 7.
    let mut message: Vec<u8> = vec![0x01, 0, 0, 0, 0, 0, 0, 0, 0x30];
    message.extend_from_slice(&[0u8; 16]);
    message.extend_from_slice(&[0, 0, 0, 0, 0, 0, 0, 5]);
    message.extend_from_slice(&[0, 0, 0, 0, 0, 0, 0, 2]);
    message.extend_from_slice(&[0, 0, 0, 0, 0, 0, 0, 3]);
    message.extend_from_slice(&[0, 0, 0, 0, 0, 0, 0, 7]);
    let mut controller = Controller::new();
    match controller.read(StreamRead::Data(&message)) {
        ReadOutcome::Completed(RequestData::DownloadResource(report)) => {
            assert_eq!(report.id(), Uuid::nil());
            assert_eq!(report.chunk_index(), 5);
            assert_eq!(report.missed_chunks(), &vec![3, 7]);
        }
        _ => panic!("the progress report was expected"),
    }
}

#[test]
fn length_that_covers_only_the_fixed_part_does_not_decode() {
    // The same bytes behind a length of 32: the payload then ends before the
    // two chunks that it announces.
    let mut message: Vec<u8> = vec![0x01, 0, 0, 0, 0, 0, 0, 0, 0x20];
    message.extend_from_slice(&[0u8; 16]);
    message.extend_from_slice(&[0, 0, 0, 0, 0, 0, 0, 5]);
    message.extend_from_slice(&[0, 0, 0, 0, 0, 0, 0, 2]);
    message.extend_from_slice(&[0, 0, 0, 0, 0, 0, 0, 3]);
    message.extend_from_slice(&[0, 0, 0, 0, 0, 0, 0, 7]);
    let mut controller = Controller::new();
    assert!(matches!(
        controller.read(StreamRead::Data(&message)),
        ReadOutcome::DecodeFailed(DecodeError::LengthOverrun)
    ));
}

#[test]
fn whole_message_in_one_read() {
    let mut controller = Controller::new();
    assert_is_the_report(controller.read(StreamRead::Data(&report_message())));
    assert_is_the_manifest(controller.read(StreamRead::Data(&manifest_message())));
    assert!(matches!(controller.read(StreamRead::WouldBlock), ReadOutcome::Pending));
}

#[test]
fn one_byte_at_a_time() {
    let message = report_message();
    let cuts: Vec<usize> = (1..message.len()).collect();
    assert_eq!(cuts.len(), 56);
    let mut controller = Controller::new();
    assert_is_the_report(feed_in_pieces(&mut controller, &message, &cuts));
    // The decoder is between messages again: the next one decodes as well.
    let message = manifest_message();
    let cuts: Vec<usize> = (1..message.len()).collect();
    assert_is_the_manifest(feed_in_pieces(&mut controller, &message, &cuts));
}

#[test]
fn every_split_in_two() {
    let message = manifest_message();
    for cut in 1..message.len() {
        let mut controller = Controller::new();
        assert_is_the_manifest(feed_in_pieces(&mut controller, &message, &[cut]));
    }
}

#[test]
fn splits_at_the_field_borders() {
    let message = report_message();
    for cuts in [
        vec![1],
        vec![9],
        vec![1, 9],
        vec![1, 5, 9],
        vec![8, 9, 10],
        vec![1, 9, 25, 33, 41, 49],
        vec![2, 3, 30, 56],
    ] {
        let mut controller = Controller::new();
        assert_is_the_report(feed_in_pieces(&mut controller, &message, &cuts));
    }
}

#[test]
fn reads_without_data_change_nothing_midway() {
    let message = report_message();
    let mut controller = Controller::new();
    assert!(matches!(controller.read(StreamRead::WouldBlock), ReadOutcome::Pending));
    assert!(matches!(
        controller.read(StreamRead::Data(&message[..4])),
        ReadOutcome::Pending
    ));
    assert!(matches!(controller.read(StreamRead::WouldBlock), ReadOutcome::Pending));
    assert!(matches!(controller.read(StreamRead::ConnectionReset), ReadOutcome::Pending));
    assert!(matches!(
        controller.read(StreamRead::Data(&message[4..20])),
        ReadOutcome::Pending
    ));
    assert!(matches!(controller.read(StreamRead::Failed), ReadOutcome::Pending));
    assert_is_the_report(controller.read(StreamRead::Data(&message[20..])));
}

#[test]
fn two_messages_in_one_read_come_out_in_two_calls() {
    let mut both = report_message();
    both.extend_from_slice(&manifest_message());
    let mut controller = Controller::new();
    assert_is_the_report(controller.read(StreamRead::Data(&both)));
    assert_is_the_manifest(controller.read(StreamRead::WouldBlock));
    assert!(matches!(controller.read(StreamRead::WouldBlock), ReadOutcome::Pending));
}

#[test]
fn second_message_comes_out_on_any_later_call() {
    for later in [StreamRead::ConnectionReset, StreamRead::Failed, StreamRead::Data(&[1, 0, 0])] {
        let mut both = manifest_message();
        both.extend_from_slice(&report_message());
        let mut controller = Controller::new();
        assert_is_the_manifest(controller.read(StreamRead::Data(&both)));
        assert_is_the_report(controller.read(later));
    }
}

#[test]
fn bytes_behind_a_message_start_the_next() {
    let first = report_message();
    let second = manifest_message();
    let mut bytes = first.clone();
    bytes.extend_from_slice(&second[..20]);
    let mut controller = Controller::new();
    assert_is_the_report(controller.read(StreamRead::Data(&bytes)));
    assert_is_the_manifest(controller.read(StreamRead::Data(&second[20..])));
}

#[test]
fn three_messages_in_one_read() {
    let mut bytes = report_message();
    bytes.extend_from_slice(&report_message());
    bytes.extend_from_slice(&manifest_message());
    let mut controller = Controller::new();
    assert_is_the_report(controller.read(StreamRead::Data(&bytes)));
    assert_is_the_report(controller.read(StreamRead::WouldBlock));
    assert_is_the_manifest(controller.read(StreamRead::WouldBlock));
    assert!(matches!(controller.read(StreamRead::WouldBlock), ReadOutcome::Pending));
}

#[test]
fn unknown_tag_resets_for_good() {
    for tag in [2u8, 3, 0x7f, 0xff] {
        let mut controller = Controller::new();
        let mut bytes = vec![tag];
        bytes.extend_from_slice(&report_message());
        assert!(matches!(controller.read(StreamRead::Data(&bytes)), ReadOutcome::Reset));
        assert_eq!(controller.phase(), Phase::Reset);
        // Whatever arrives afterwards, no message is completed.
        assert!(matches!(controller.read(StreamRead::Data(&report_message())), ReadOutcome::Reset));
        assert!(matches!(controller.read(StreamRead::WouldBlock), ReadOutcome::Reset));
        assert!(matches!(controller.read(StreamRead::Data(&[])), ReadOutcome::EndOfStream));
        assert!(matches!(controller.read(StreamRead::Data(&manifest_message())), ReadOutcome::Reset));
    }
}

#[test]
fn unknown_tag_behind_a_message() {
    let mut bytes = report_message();
    bytes.push(0x02);
    bytes.extend_from_slice(&manifest_message());
    let mut controller = Controller::new();
    assert_is_the_report(controller.read(StreamRead::Data(&bytes)));
    assert!(matches!(controller.read(StreamRead::WouldBlock), ReadOutcome::Reset));
    assert!(matches!(controller.read(StreamRead::Data(&manifest_message())), ReadOutcome::Reset));
}

#[test]
fn truncated_length_prefix_waits_for_the_eighth_byte() {
    let message = report_message();
    let mut controller = Controller::new();
    assert_eq!(controller.phase(), Phase::Idle);
    assert!(matches!(
        controller.read(StreamRead::Data(&message[..1])),
        ReadOutcome::Pending
    ));
    assert_eq!(controller.phase(), Phase::AwaitingLength);
    for given in 1..8 {
        assert!(matches!(
            controller.read(StreamRead::Data(&message[given..given + 1])),
            ReadOutcome::Pending
        ));
        assert!(matches!(controller.read(StreamRead::WouldBlock), ReadOutcome::Pending));
        assert_eq!(controller.phase(), Phase::AwaitingLength);
    }
    // The eighth byte of the length arrives together with the payload: the
    // same call gathers and decodes it.
    assert_is_the_report(controller.read(StreamRead::Data(&message[8..])));
}

#[test]
fn eighth_length_byte_alone_leaves_the_payload_owed() {
    let message = report_message();
    let mut controller = Controller::new();
    assert!(matches!(
        controller.read(StreamRead::Data(&message[..8])),
        ReadOutcome::Pending
    ));
    assert_eq!(controller.phase(), Phase::AwaitingLength);
    assert!(matches!(
        controller.read(StreamRead::Data(&message[8..9])),
        ReadOutcome::Pending
    ));
    assert_eq!(controller.phase(), Phase::Accumulating);
    // The length is 48: 47 more bytes do not complete the message.
    assert!(matches!(
        controller.read(StreamRead::Data(&message[9..56])),
        ReadOutcome::Pending
    ));
    assert_is_the_report(controller.read(StreamRead::Data(&message[56..])));
    assert_eq!(controller.phase(), Phase::Idle);
}

#[test]
fn zero_byte_read_is_the_end_of_the_stream() {
    let mut controller = Controller::new();
    assert!(matches!(controller.read(StreamRead::Data(&[])), ReadOutcome::EndOfStream));
    // Nothing waiting and nothing read is something else.
    assert!(matches!(controller.read(StreamRead::WouldBlock), ReadOutcome::Pending));
    assert!(matches!(controller.read(StreamRead::ConnectionReset), ReadOutcome::Pending));
    assert!(matches!(controller.read(StreamRead::Failed), ReadOutcome::Pending));
}

#[test]
fn zero_byte_read_leaves_the_state_alone() {
    let mut both = report_message();
    both.extend_from_slice(&manifest_message());
    let mut controller = Controller::new();
    assert!(matches!(
        controller.read(StreamRead::Data(&both[..30])),
        ReadOutcome::Pending
    ));
    assert!(matches!(controller.read(StreamRead::Data(&[])), ReadOutcome::EndOfStream));
    assert_is_the_report(controller.read(StreamRead::Data(&both[30..])));
    // A message waits in the backlog: the end of the stream is still reported
    // as such, and the message comes out on the next call.
    assert!(matches!(controller.read(StreamRead::Data(&[])), ReadOutcome::EndOfStream));
    assert_is_the_manifest(controller.read(StreamRead::WouldBlock));
}

#[test]
fn payload_that_does_not_decode_leaves_the_connection_open() {
    // A manifest message whose name is not UTF-8.
    let mut bad: Vec<u8> = vec![0x00, 0, 0, 0, 0, 0, 0, 0, 50];
    bad.extend_from_slice(&[0u8; 16]);
    bad.extend_from_slice(&[0, 0, 0, 0, 0, 0, 0, 2, 0xff, 0xfe]);
    bad.extend_from_slice(&[0u8; 24]);
    let mut controller = Controller::new();
    assert!(matches!(
        controller.read(StreamRead::Data(&bad)),
        ReadOutcome::DecodeFailed(DecodeError::InvalidUtf8)
    ));
    assert_is_the_report(controller.read(StreamRead::Data(&report_message())));
}

#[test]
fn empty_payload_does_not_decode() {
    let mut controller = Controller::new();
    assert!(matches!(
        controller.read(StreamRead::Data(&[0x01, 0, 0, 0, 0, 0, 0, 0, 0])),
        ReadOutcome::DecodeFailed(DecodeError::TooShort)
    ));
    assert!(matches!(
        controller.read(StreamRead::Data(&[0x00, 0, 0, 0, 0, 0, 0, 0, 3, 1, 2, 3])),
        ReadOutcome::DecodeFailed(DecodeError::TooShort)
    ));
    assert_is_the_manifest(controller.read(StreamRead::Data(&manifest_message())));
}

#[test]
fn length_prefix_is_big_endian() {
    // A report with 32 missed chunks has a payload of 0x0120 bytes.
    let missed: Vec<u64> = (0..32).collect();
    let message = prepare_package(
        RequestType::DownloadResource,
        Box::new(ProgressReport::new(Uuid::nil(), 1, missed.clone())),
    );
    assert_eq!(&message[1..9], &[0, 0, 0, 0, 0, 0, 0x01, 0x20]);
    let mut controller = Controller::new();
    assert!(matches!(
        controller.read(StreamRead::Data(&message[..message.len() - 1])),
        ReadOutcome::Pending
    ));
    match controller.read(StreamRead::Data(&message[message.len() - 1..])) {
        ReadOutcome::Completed(RequestData::DownloadResource(report)) => {
            assert_eq!(report.missed_chunks(), &missed);
        }
        _ => panic!("the progress report was expected"),
    }
}

#[test]
fn write_builds_the_package() {
    let controller = Controller::new();
    let written = controller.write(
        RequestType::DownloadResource,
        Box::new(ProgressReport::new(Uuid::from_bytes([9; 16]), 5, vec![3, 7])),
    );
    assert_eq!(written, report_message());
    let mut reader = Controller::new();
    assert_is_the_report(reader.read(StreamRead::Data(&written)));
}
