use std::collections::{HashMap, HashSet};

use file_uploader::error::UploadError;
use file_uploader::extract::{Chunk, Part};
use file_uploader::handler::{Action, Event, Phase, Response, Upload};
use file_uploader::layout::StoreConfig;

/// A storage in memory: the containers that exist, and the files by path.
struct Storage {
    containers: HashSet<String>,
    files: HashMap<String, Vec<u8>>,
    asked: usize,
    fail_container: bool,
    fail_write: bool,
}

impl Storage {
    fn new() -> Storage {
        Storage {
            containers: HashSet::new(),
            files: HashMap::new(),
            asked: 0,
            fail_container: false,
            fail_write: false,
        }
    }
}

/// Runs one request to its end against the storage, as a server would.
fn serve(
    key: &str,
    availability: Option<bool>,
    parts: Vec<Part>,
    storage: &mut Storage,
) -> Result<Response, UploadError> {
    let config = StoreConfig::new(None);
    let mut upload: Upload = file_uploader::handler::write(key.to_string(), &config);
    let mut parts = parts.into_iter();
    loop {
        let event = match upload.action() {
            Action::CheckKey { key: asked } => {
                assert_eq!(asked, key);
                match availability {
                    Some(available) => Event::Availability(available),
                    None => Event::RegistryFailed,
                }
            }
            Action::NextPart => match parts.next() {
                Some(part) => Event::Part(part),
                None => Event::EndOfParts,
            },
            Action::CreateContainer { path } => {
                storage.asked += 1;
                if storage.fail_container {
                    Event::StoreFailed
                } else {
                    storage.containers.insert(path);
                    Event::Stored
                }
            }
            Action::WriteChunk { path, payload } => {
                storage.asked += 1;
                if storage.fail_write {
                    Event::StoreFailed
                } else {
                    storage.files.insert(path, payload);
                    Event::Stored
                }
            }
            Action::Respond(response) => {
                assert!(upload.is_done());
                return Ok(response);
            }
            Action::Fail(error) => {
                assert!(upload.is_done());
                return Err(error);
            }
        };
        upload = upload.step(event);
    }
}

fn chunk_parts(index: &str, payload: &[u8]) -> Vec<Part> {
    vec![Part::Index(index.to_string()), Part::Payload(payload.to_vec())]
}

#[test]
fn request_starts_by_asking_the_registry() {
    let config = StoreConfig::new(None);
    let upload = file_uploader::handler::write("abc123".to_string(), &config);
    assert_eq!(upload.phase(), Phase::Received);
    assert!(!upload.is_done());
    assert_eq!(upload.file_key(), "abc123");
    assert_eq!(upload.chunk(), &Chunk { index: 0, payload: vec![] });
    assert_eq!(upload.action(), Action::CheckKey { key: "abc123".to_string() });
}

#[test]
fn unavailable_key_is_rejected_with_400() {
    let mut storage = Storage::new();
    let response = serve("abc123", Some(false), chunk_parts("2", b"data"), &mut storage).unwrap();
    assert_eq!(response.status, 400);
    assert_eq!(response.body, "file_key is not available");
}

#[test]
fn unavailable_key_leaves_storage_alone() {
    let mut storage = Storage::new();
    let _ = serve("abc123", Some(false), chunk_parts("2", b"data"), &mut storage);
    assert_eq!(storage.asked, 0);
    assert!(storage.containers.is_empty());
    assert!(storage.files.is_empty());
}

#[test]
fn rejected_request_stays_rejected() {
    let config = StoreConfig::new(None);
    let mut upload = file_uploader::handler::write("k".to_string(), &config);
    upload = upload.step(Event::Availability(false));
    assert_eq!(upload.phase(), Phase::Rejected);
    for event in vec![
        Event::Availability(true),
        Event::Part(Part::Index("1".to_string())),
        Event::EndOfParts,
        Event::Stored,
        Event::StoreFailed,
        Event::RegistryFailed,
    ] {
        upload = upload.step(event);
        assert_eq!(upload.phase(), Phase::Rejected);
        assert_eq!(
            upload.action(),
            Action::Respond(Response { status: 400, body: "file_key is not available".to_string() })
        );
    }
}

#[test]
fn registry_failure_fails_the_request() {
    let mut storage = Storage::new();
    let outcome = serve("abc123", None, chunk_parts("2", b"data"), &mut storage);
    assert_eq!(outcome, Err(UploadError::RegistryError));
    assert_eq!(storage.asked, 0);
    assert!(storage.files.is_empty());
}

#[test]
fn example_upload_is_stored_and_confirmed() {
    let payload: Vec<u8> = b"seventeen bytes!!".to_vec();
    assert_eq!(payload.len(), 17);
    let mut storage = Storage::new();
    let parts = vec![Part::Index("2".to_string()), Part::Payload(payload.clone())];
    let response = serve("abc123", Some(true), parts, &mut storage).unwrap();
    assert_eq!(response.status, 200);
    assert_eq!(response.body, "chunk upload success");
    assert_eq!(storage.files.get("./storage/abc123/2"), Some(&payload));
    assert_eq!(storage.files.len(), 1);
    assert!(storage.containers.contains("./storage/abc123"));
}

#[test]
fn stored_chunk_reads_back_byte_for_byte() {
    let payload: Vec<u8> = (0..=255u8).collect();
    let mut storage = Storage::new();
    let response = serve("big", Some(true), vec![
        Part::Payload(payload.clone()),
        Part::Index("4294967295".to_string()),
    ], &mut storage).unwrap();
    assert_eq!(response.status, 200);
    assert_eq!(storage.files.get("./storage/big/4294967295"), Some(&payload));
}

#[test]
fn actions_come_in_order() {
    let config = StoreConfig::new(Some("/srv".to_string()));
    let mut upload = file_uploader::handler::write("k".to_string(), &config);
    assert_eq!(upload.action(), Action::CheckKey { key: "k".to_string() });
    upload = upload.step(Event::Availability(true));
    assert_eq!(upload.phase(), Phase::KeyChecked);
    assert_eq!(upload.action(), Action::NextPart);
    upload = upload.step(Event::Part(Part::Index("7".to_string())));
    assert_eq!(upload.phase(), Phase::KeyChecked);
    assert_eq!(upload.action(), Action::NextPart);
    upload = upload.step(Event::Part(Part::Payload(vec![1, 2, 3])));
    assert_eq!(upload.chunk(), &Chunk { index: 7, payload: vec![1, 2, 3] });
    upload = upload.step(Event::EndOfParts);
    assert_eq!(upload.phase(), Phase::ChunkExtracted);
    assert_eq!(upload.action(), Action::CreateContainer { path: "/srv/k".to_string() });
    upload = upload.step(Event::Stored);
    assert_eq!(upload.phase(), Phase::ContainerReady);
    assert_eq!(
        upload.action(),
        Action::WriteChunk { path: "/srv/k/7".to_string(), payload: vec![1, 2, 3] }
    );
    assert!(!upload.is_done());
    upload = upload.step(Event::Stored);
    assert_eq!(upload.phase(), Phase::Responded);
    assert!(upload.is_done());
    assert_eq!(
        upload.action(),
        Action::Respond(Response { status: 200, body: "chunk upload success".to_string() })
    );
}

#[test]
fn writing_twice_is_as_writing_once() {
    let mut storage = Storage::new();
    serve("k", Some(true), chunk_parts("3", b"same"), &mut storage).unwrap();
    let files_once = storage.files.clone();
    let containers_once = storage.containers.clone();
    serve("k", Some(true), chunk_parts("3", b"same"), &mut storage).unwrap();
    assert_eq!(storage.files, files_once);
    assert_eq!(storage.containers, containers_once);
    assert_eq!(storage.files.get("./storage/k/3"), Some(&b"same".to_vec()));
}

#[test]
fn second_write_overwrites_the_first() {
    let mut storage = Storage::new();
    serve("k", Some(true), chunk_parts("3", b"first payload"), &mut storage).unwrap();
    serve("k", Some(true), chunk_parts("3", b"second"), &mut storage).unwrap();
    assert_eq!(storage.files.get("./storage/k/3"), Some(&b"second".to_vec()));
    assert_eq!(storage.files.len(), 1);
}

#[test]
fn malformed_index_fails_the_request() {
    let mut storage = Storage::new();
    let outcome = serve("k", Some(true), chunk_parts("abc", b"data"), &mut storage);
    assert_eq!(outcome, Err(UploadError::MalformedChunkIndex));
    let outcome = serve("k", Some(true), chunk_parts("-1", b"data"), &mut storage);
    assert_eq!(outcome, Err(UploadError::MalformedChunkIndex));
}

#[test]
fn malformed_index_writes_no_file() {
    let mut storage = Storage::new();
    let _ = serve("k", Some(true), chunk_parts("abc", b"data"), &mut storage);
    let _ = serve("k", Some(true), vec![
        Part::Payload(b"data".to_vec()),
        Part::Index("-1".to_string()),
    ], &mut storage);
    assert_eq!(storage.asked, 0);
    assert!(storage.containers.is_empty());
    assert!(storage.files.is_empty());
}

#[test]
fn malformed_index_stops_the_reading() {
    let config = StoreConfig::new(None);
    let mut upload = file_uploader::handler::write("k".to_string(), &config);
    upload = upload.step(Event::Availability(true));
    upload = upload.step(Event::Part(Part::Payload(vec![5])));
    upload = upload.step(Event::Part(Part::Index("1x".to_string())));
    assert_eq!(upload.phase(), Phase::Failed(UploadError::MalformedChunkIndex));
    assert_eq!(upload.action(), Action::Fail(UploadError::MalformedChunkIndex));
    upload = upload.step(Event::Part(Part::Index("1".to_string())));
    upload = upload.step(Event::EndOfParts);
    upload = upload.step(Event::Stored);
    assert_eq!(upload.phase(), Phase::Failed(UploadError::MalformedChunkIndex));
    assert_eq!(upload.chunk(), &Chunk { index: 0, payload: vec![5] });
}

#[test]
fn missing_index_is_stored_as_chunk_zero() {
    let mut storage = Storage::new();
    let response =
        serve("k", Some(true), vec![Part::Payload(b"head".to_vec())], &mut storage).unwrap();
    assert_eq!(response.status, 200);
    assert_eq!(storage.files.get("./storage/k/0"), Some(&b"head".to_vec()));
}

#[test]
fn missing_payload_is_stored_as_empty_chunk() {
    let mut storage = Storage::new();
    let response =
        serve("k", Some(true), vec![Part::Index("6".to_string())], &mut storage).unwrap();
    assert_eq!(response.status, 200);
    assert_eq!(storage.files.get("./storage/k/6"), Some(&Vec::new()));
}

#[test]
fn distinct_indices_are_stored_side_by_side() {
    let config = StoreConfig::new(None);
    let mut storage = Storage::new();
    let mut first = file_uploader::handler::write("k".to_string(), &config);
    let mut second = file_uploader::handler::write("k".to_string(), &config);
    first = first.step(Event::Availability(true));
    second = second.step(Event::Availability(true));
    second = second.step(Event::Part(Part::Index("1".to_string())));
    first = first.step(Event::Part(Part::Index("0".to_string())));
    first = first.step(Event::Part(Part::Payload(b"zero".to_vec())));
    second = second.step(Event::Part(Part::Payload(b"one".to_vec())));
    second = second.step(Event::EndOfParts);
    first = first.step(Event::EndOfParts);
    for turn in 0..4 {
        let upload = if turn % 2 == 0 { &mut second } else { &mut first };
        match upload.action() {
            Action::CreateContainer { path } => {
                storage.containers.insert(path);
            }
            Action::WriteChunk { path, payload } => {
                storage.files.insert(path, payload);
            }
            other => panic!("unexpected action {:?}", other),
        }
        let moved = upload.clone();
        *upload = moved.step(Event::Stored);
    }
    assert_eq!(first.phase(), Phase::Responded);
    assert_eq!(second.phase(), Phase::Responded);
    assert_eq!(storage.files.get("./storage/k/0"), Some(&b"zero".to_vec()));
    assert_eq!(storage.files.get("./storage/k/1"), Some(&b"one".to_vec()));
    assert_eq!(storage.files.len(), 2);
    assert_eq!(storage.containers.len(), 1);
}

#[test]
fn failing_container_creation_fails_the_request() {
    let mut storage = Storage::new();
    storage.fail_container = true;
    let outcome = serve("k", Some(true), chunk_parts("1", b"data"), &mut storage);
    assert_eq!(outcome, Err(UploadError::StorageIOError));
    assert_eq!(storage.asked, 1);
    assert!(storage.files.is_empty());
}

#[test]
fn failing_write_fails_the_request() {
    let mut storage = Storage::new();
    storage.fail_write = true;
    let outcome = serve("k", Some(true), chunk_parts("1", b"data"), &mut storage);
    assert_eq!(outcome, Err(UploadError::StorageIOError));
    assert_eq!(storage.asked, 2);
    assert!(storage.files.is_empty());
    assert!(storage.containers.contains("./storage/k"));
}

#[test]
fn events_out_of_turn_change_nothing() {
    let config = StoreConfig::new(None);
    let mut upload = file_uploader::handler::write("k".to_string(), &config);
    for event in vec![
        Event::Part(Part::Index("9".to_string())),
        Event::EndOfParts,
        Event::Stored,
        Event::StoreFailed,
    ] {
        upload = upload.step(event);
        assert_eq!(upload.phase(), Phase::Received);
        assert_eq!(upload.chunk(), &Chunk { index: 0, payload: vec![] });
    }
    upload = upload.step(Event::Availability(true));
    for event in vec![
        Event::Availability(false),
        Event::RegistryFailed,
        Event::Stored,
        Event::StoreFailed,
    ] {
        upload = upload.step(event);
        assert_eq!(upload.phase(), Phase::KeyChecked);
    }
    upload = upload.step(Event::EndOfParts);
    for event in vec![
        Event::Availability(false),
        Event::Part(Part::Index("9".to_string())),
        Event::EndOfParts,
    ] {
        upload = upload.step(event);
        assert_eq!(upload.phase(), Phase::ChunkExtracted);
        assert_eq!(upload.chunk(), &Chunk { index: 0, payload: vec![] });
    }
}

#[test]
fn answered_request_stays_answered() {
    let config = StoreConfig::new(None);
    let mut upload = file_uploader::handler::write("k".to_string(), &config);
    for event in vec![Event::Availability(true), Event::EndOfParts, Event::Stored, Event::Stored] {
        upload = upload.step(event);
    }
    assert_eq!(upload.phase(), Phase::Responded);
    for event in vec![Event::Stored, Event::StoreFailed, Event::Availability(false)] {
        upload = upload.step(event);
        assert_eq!(upload.phase(), Phase::Responded);
    }
}

#[test]
fn configured_base_path_is_used() {
    let config = StoreConfig::new(Some("/mnt/chunks".to_string()));
    let mut upload = file_uploader::handler::write("movie".to_string(), &config);
    for event in vec![
        Event::Availability(true),
        Event::Part(Part::Index("12".to_string())),
        Event::EndOfParts,
    ] {
        upload = upload.step(event);
    }
    assert_eq!(upload.action(), Action::CreateContainer { path: "/mnt/chunks/movie".to_string() });
    upload = upload.step(Event::Stored);
    assert_eq!(
        upload.action(),
        Action::WriteChunk { path: "/mnt/chunks/movie/12".to_string(), payload: vec![] }
    );
}
