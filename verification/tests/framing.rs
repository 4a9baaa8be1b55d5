use transfer_wire::error::DecodeError;
use transfer_wire::object::manifest::Manifest;
use transfer_wire::object::progress_report::ProgressReport;
use transfer_wire::request::{prepare_package, Request, RequestData, RequestState, RequestType};
use transfer_wire::serialization::Serializable;
use uuid::Uuid;

#[test]
fn tags_zero_and_one_are_the_two_kinds() {
    assert_eq!(RequestType::from_u8(0), Some(RequestType::SendManifest));
    assert_eq!(RequestType::from_u8(1), Some(RequestType::DownloadResource));
    assert_eq!(RequestType::SendManifest.to_u8(), 0);
    assert_eq!(RequestType::DownloadResource.to_u8(), 1);
}

#[test]
fn every_other_byte_is_no_tag() {
    for value in 2..=255u8 {
        assert_eq!(RequestType::from_u8(value), None);
        assert!(Request::from_u8(value).is_none());
    }
}

#[test]
fn no_kind_fixes_its_length() {
    assert_eq!(RequestType::SendManifest.known_length(), None);
    assert_eq!(RequestType::DownloadResource.known_length(), None);
}

#[test]
fn get_request_data_decodes_by_kind() {
    let report = ProgressReport::new(Uuid::nil(), 5, vec![3, 7]).serialize();
    match RequestType::DownloadResource.get_request_data(&report) {
        Ok(RequestData::DownloadResource(decoded)) => {
            assert_eq!(decoded.chunk_index(), 5);
            assert_eq!(decoded.missed_chunks(), &vec![3, 7]);
        }
        _ => panic!("a progress report was expected"),
    }
    let manifest = Manifest::new(Uuid::nil(), "n".to_string(), 16, 1, 8).serialize();
    match RequestType::SendManifest.get_request_data(&manifest) {
        Ok(RequestData::SendManifest(decoded)) => {
            assert_eq!(decoded.name(), "n");
            assert_eq!(decoded.chunk_size(), 16);
        }
        _ => panic!("a manifest was expected"),
    }
    // 32 bytes are a progress report, and too few for a manifest.
    assert!(matches!(
        RequestType::SendManifest.get_request_data(&vec![0u8; 32]),
        Err(DecodeError::TooShort)
    ));
    assert!(RequestType::DownloadResource.get_request_data(&vec![0u8; 32]).is_ok());
}

#[test]
fn decoded_value_knows_its_kind() {
    let report = ProgressReport::new(Uuid::nil(), 1, Vec::new());
    assert_eq!(RequestData::DownloadResource(report).request_type(), RequestType::DownloadResource);
    let manifest = Manifest::new(Uuid::nil(), String::new(), 8, 0, 0);
    assert_eq!(RequestData::SendManifest(manifest).request_type(), RequestType::SendManifest);
}

#[test]
fn new_request_knows_its_kind_and_no_length() {
    let request = Request::new(RequestType::DownloadResource);
    assert_eq!(request.request_type(), RequestType::DownloadResource);
    assert_eq!(request.get_length(), None);
    let request = Request::from_u8(0).unwrap();
    assert_eq!(request.request_type(), RequestType::SendManifest);
    assert_eq!(request.get_length(), None);
}

#[test]
fn init_length_sets_the_length_once() {
    let mut request = Request::new(RequestType::DownloadResource);
    assert_eq!(request.init_length(40), 40);
    assert_eq!(request.get_length(), Some(40));
    assert_eq!(request.pending_bytes(), 40);
    // A second length does not replace the first.
    assert_eq!(request.init_length(7), 40);
    assert_eq!(request.get_length(), Some(40));
    let mut huge = Request::new(RequestType::SendManifest);
    assert_eq!(huge.init_length(u64::MAX), u64::MAX);
    assert_eq!(huge.pending_bytes(), u64::MAX);
}

#[test]
fn add_gathers_until_nothing_is_owed() {
    let payload = ProgressReport::new(Uuid::nil(), 5, vec![3, 7]).serialize();
    let mut request = Request::new(RequestType::DownloadResource);
    request.init_length(payload.len() as u64);
    assert!(matches!(request.add(&payload[..10].to_vec()), RequestState::PENDING));
    assert_eq!(request.pending_bytes(), 38);
    assert!(matches!(request.add(&Vec::new()), RequestState::PENDING));
    assert_eq!(request.pending_bytes(), 38);
    assert!(matches!(request.add(&payload[10..47].to_vec()), RequestState::PENDING));
    assert_eq!(request.pending_bytes(), 1);
    match request.add(&payload[47..].to_vec()) {
        RequestState::COMPLETED(RequestData::DownloadResource(report)) => {
            assert_eq!(report.id(), Uuid::nil());
            assert_eq!(report.chunk_index(), 5);
            assert_eq!(report.missed_chunks(), &vec![3, 7]);
        }
        _ => panic!("the report was expected"),
    }
    assert_eq!(request.pending_bytes(), 0);
}

#[test]
fn add_reports_a_payload_that_does_not_decode() {
    let mut request = Request::new(RequestType::SendManifest);
    request.init_length(5);
    assert!(matches!(request.add(&vec![1, 2, 3, 4, 5]), RequestState::ERROR(DecodeError::TooShort)));
    let mut empty = Request::new(RequestType::DownloadResource);
    empty.init_length(0);
    assert!(matches!(empty.add(&Vec::new()), RequestState::ERROR(DecodeError::TooShort)));
}

#[test]
fn request_clone_keeps_the_progress() {
    let mut request = Request::new(RequestType::DownloadResource);
    request.init_length(32);
    request.add(&vec![0u8; 12]);
    let copy = request.clone();
    assert_eq!(copy.request_type(), RequestType::DownloadResource);
    assert_eq!(copy.get_length(), Some(32));
    assert_eq!(copy.pending_bytes(), 20);
}

#[test]
fn package_is_tag_length_payload() {
    let report = ProgressReport::new(Uuid::nil(), 5, vec![3, 7]);
    let payload = report.serialize();
    let package = prepare_package(RequestType::DownloadResource, Box::new(report));
    assert_eq!(package.len(), 1 + 8 + 48);
    assert_eq!(package[0], 0x01);
    assert_eq!(&package[1..9], &[0, 0, 0, 0, 0, 0, 0, 0x30]);
    assert_eq!(&package[9..], &payload[..]);
}

#[test]
fn package_of_a_manifest() {
    let manifest = Manifest::new(Uuid::from_bytes([3; 16]), "é".to_string(), 9, 1, 1);
    let package = prepare_package(RequestType::SendManifest, Box::new(manifest));
    let mut expected: Vec<u8> = vec![0x00, 0, 0, 0, 0, 0, 0, 0, 50];
    expected.extend_from_slice(&[3; 16]);
    expected.extend_from_slice(&[0, 0, 0, 0, 0, 0, 0, 2, 0xc3, 0xa9]);
    expected.extend_from_slice(&[0, 0, 0, 0, 0, 0, 0, 9]);
    expected.extend_from_slice(&[0, 0, 0, 0, 0, 0, 0, 1]);
    expected.extend_from_slice(&[0, 0, 0, 0, 0, 0, 0, 1]);
    assert_eq!(package, expected);
}

#[test]
fn package_length_uses_all_eight_bytes() {
    let manifest = Manifest::new(Uuid::nil(), "n".repeat(0x01_02_03), 9, 1, 1);
    let package = prepare_package(RequestType::SendManifest, Box::new(manifest));
    let length = 48 + 0x01_02_03u64;
    assert_eq!(&package[1..9], &length.to_be_bytes());
    assert_eq!(package.len() as u64, 9 + length);
}
