use attic::server::error::ErrorKind;
use attic::server::storage::s3::{
    default_multipart_concurrency, get_client_from_db_ref, get_download, upload_mode, ClientChoice,
    CompletedPart, MultipartAction, MultipartUpload, S3RemoteFile, S3StorageConfig, UploadMode,
    CHUNK_SIZE,
};
use attic::server::storage::{DownloadKind, LocalRemoteFile, RemoteFile};

fn config(multipart_concurrency: usize) -> S3StorageConfig {
    S3StorageConfig {
        region: "test-region".to_owned(),
        bucket: "test-bucket".to_owned(),
        endpoint: None,
        credentials: None,
        multipart_concurrency,
    }
}

fn part(part_number: i32) -> CompletedPart {
    CompletedPart { part_number, e_tag: Some(format!("tag-{part_number}")) }
}

#[test]
fn multipart_concurrency_defaults_and_rejects_zero() {
    let config_default = config(default_multipart_concurrency());
    assert_eq!(config_default.multipart_concurrency, 4);
    assert!(config_default.validate().is_ok());

    let zero = config(0);
    assert!(zero.validate().is_err());
    assert_eq!(
        zero.validate().unwrap_err(),
        "storage.multipart-concurrency must be greater than zero"
    );
}

#[test]
fn references_name_region_bucket_and_key() {
    match config(4).make_db_reference("file.nar".to_owned()) {
        RemoteFile::S3(file) => {
            assert_eq!(file.region, "test-region");
            assert_eq!(file.bucket, "test-bucket");
            assert_eq!(file.key, "file.nar");
        }
        RemoteFile::Local(_) => panic!("the file is in S3"),
    }
}

#[test]
fn files_in_other_regions_need_another_client() {
    let file = RemoteFile::S3(S3RemoteFile {
        region: "a".to_owned(),
        bucket: "b".to_owned(),
        key: "k".to_owned(),
    });
    let (client, found) = get_client_from_db_ref("a", &file).unwrap();
    assert!(matches!(client, ClientChoice::Own));
    assert_eq!(found.key, "k");
    let (client, _) = get_client_from_db_ref("z", &file).unwrap();
    assert!(matches!(client, ClientChoice::ForRegion(region) if region == "a"));

    let local = RemoteFile::Local(LocalRemoteFile { name: "x".to_owned() });
    assert!(matches!(
        get_client_from_db_ref("a", &local),
        Err(ErrorKind::StorageError(message))
            if message == "Does not understand the remote file reference"
    ));
}

#[test]
fn downloads_are_streams_or_urls() {
    assert_eq!(get_download(true), DownloadKind::AsyncRead);
    assert_eq!(get_download(false), DownloadKind::Url { expires_in_seconds: 600 });
}

#[test]
fn full_first_chunks_lead_to_multipart_uploads() {
    assert_eq!(CHUNK_SIZE, 8 * 1024 * 1024);
    assert_eq!(upload_mode(0), UploadMode::PutObject);
    assert_eq!(upload_mode(CHUNK_SIZE - 1), UploadMode::PutObject);
    assert_eq!(upload_mode(CHUNK_SIZE), UploadMode::Multipart);
}

#[test]
fn a_file_of_exactly_one_chunk_is_one_part() {
    let mut upload = MultipartUpload::new(4);
    assert_eq!(upload.next(), MultipartAction::ReadChunk);
    assert_eq!(upload.chunk_read(CHUNK_SIZE), Some(1));
    assert_eq!(upload.next(), MultipartAction::ReadChunk);
    assert_eq!(upload.chunk_read(0), None);
    assert_eq!(upload.next(), MultipartAction::AwaitPart);
    upload.part_stored(part(1));
    assert_eq!(upload.next(), MultipartAction::Complete);
    assert_eq!(upload.completed_upload().len(), 1);
    assert!(upload.must_abort());
    upload.complete();
    assert!(!upload.must_abort());
}

#[test]
fn no_more_parts_are_in_flight_than_allowed_and_they_are_sorted() {
    let mut upload = MultipartUpload::new(2);
    let mut in_flight: Vec<i32> = Vec::new();
    let mut to_read = 7;
    let mut most = 0;
    let parts = loop {
        match upload.next() {
            MultipartAction::ReadChunk => {
                let size = if to_read > 0 { 1 } else { 0 };
                to_read -= size as i32;
                if let Some(number) = upload.chunk_read(size) {
                    in_flight.push(number);
                }
            }
            MultipartAction::AwaitPart => {
                // The last part in flight happens to arrive first.
                upload.part_stored(part(in_flight.pop().unwrap()));
            }
            MultipartAction::Complete => break upload.completed_upload(),
        }
        most = most.max(in_flight.len());
    };
    assert_eq!(most, 2);
    let numbers: Vec<i32> = parts.iter().map(|p| p.part_number).collect();
    assert_eq!(numbers, vec![1, 2, 3, 4, 5, 6, 7]);
    assert_eq!(parts[2].e_tag.as_deref(), Some("tag-3"));
}
