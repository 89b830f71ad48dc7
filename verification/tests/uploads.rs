use artifact_store::error::ErrorKind;
use artifact_store::files::{
    download_failure, file_download, file_list, file_upload, upload_response, FileUploadForm,
    FileUploadedSucessfully,
};
use artifact_store::helpers::rocket::ApiError;
use artifact_store::listing::{DirEntryInfo, EntryMeta, Timestamp};
use artifact_store::upload::{Phase, Upload, UploadAction, UploadEvent};
use artifact_store::Args;

/// A storage folder kept in memory: what was published, under which
/// name.
struct Folder {
    files: Vec<(String, Vec<u8>)>,
}

impl Folder {
    fn new() -> Folder {
        Folder { files: Vec::new() }
    }

    fn get(&self, name: &str) -> Option<&Vec<u8>> {
        self.files.iter().find(|(n, _)| n == name).map(|(_, c)| c)
    }

    fn publish(&mut self, name: &str, content: Vec<u8>, replace: bool) -> UploadEvent {
        if let Some(slot) = self.files.iter_mut().find(|(n, _)| n == name) {
            if !replace {
                return UploadEvent::NameTaken;
            }
            slot.1 = content;
        } else {
            self.files.push((name.to_string(), content));
        }
        UploadEvent::Published
    }

    fn snapshot(&self) -> Vec<DirEntryInfo> {
        let mut entries = Vec::new();
        for (name, content) in &self.files {
            entries.push(DirEntryInfo {
                name: name.clone(),
                meta: Some(EntryMeta {
                    is_file: true,
                    size: content.len() as u64,
                    created: Some(Timestamp { secs: 0, nanos: 0 }),
                    modified: Some(Timestamp { secs: 0, nanos: 0 }),
                }),
            });
        }
        entries
    }

    fn total_size(&self) -> usize {
        self.files.iter().map(|(_, c)| c.len()).sum()
    }
}

fn settings(max_file_size: u64, overwrite: bool) -> Args {
    Args { max_file_size, overwrite, ..Args::default() }
}

/// Receives the chunks into a staging buffer and returns the upload with
/// that buffer, or the answer where the upload ended early.
fn receive(
    args: &Args,
    name: Option<&str>,
    chunks: &[&[u8]],
) -> Result<(Upload, Vec<u8>), Result<FileUploadedSucessfully, ApiError>> {
    let form = FileUploadForm { file_name: name.map(|n| n.to_string()), len: 0 };
    let mut upload = match file_upload(&form, args) {
        Ok(upload) => upload,
        Err(e) => return Err(Err(e)),
    };
    let mut staging: Vec<u8> = Vec::new();
    for chunk in chunks {
        let action = upload.step(UploadEvent::Chunk(chunk.len() as u64));
        match action {
            UploadAction::Append(len) => {
                assert_eq!(len, chunk.len() as u64);
                staging.extend_from_slice(chunk);
            }
            other => {
                assert_eq!(upload.phase(), Phase::Closed);
                return Err(upload_response(&upload, other).unwrap());
            }
        }
    }
    Ok((upload, staging))
}

/// Ends the stream of an upload and performs the rename in `folder`.
fn publish(
    folder: &mut Folder,
    mut upload: Upload,
    staging: Vec<u8>,
) -> Result<FileUploadedSucessfully, ApiError> {
    let replace = match upload.step(UploadEvent::EndOfStream) {
        UploadAction::Publish { replace } => replace,
        other => panic!("the end of the stream asked for {:?}", other),
    };
    let name = upload.stored_name().to_string();
    let event = folder.publish(&name, staging, replace);
    let action = upload.step(event);
    assert_eq!(upload.phase(), Phase::Closed);
    upload_response(&upload, action).unwrap()
}

fn upload(
    folder: &mut Folder,
    args: &Args,
    name: Option<&str>,
    chunks: &[&[u8]],
) -> Result<FileUploadedSucessfully, ApiError> {
    match receive(args, name, chunks) {
        Ok((upload, staging)) => publish(folder, upload, staging),
        Err(answer) => answer,
    }
}

fn download(folder: &Folder, args: &Args, name: &str) -> Result<Vec<u8>, ApiError> {
    let path = file_download(name, args)?;
    assert_eq!(path, format!("{}/{}", args.folder, name));
    match folder.get(name) {
        Some(content) => Ok(content.clone()),
        None => Err(download_failure(true)),
    }
}

#[test]
fn upload_then_download_returns_the_same_bytes() {
    let args = settings(1024, true);
    let mut folder = Folder::new();
    let payload: Vec<u8> = (0..=255u8).collect();
    for name in ["data.bin", "README", ".hidden", "a b c.TXT", "\u{e9}t\u{e9}.dat", "x.tar.GZ"] {
        let done = upload(&mut folder, &args, Some(name), &[&payload[..100], &payload[100..]])
            .unwrap();
        assert_eq!(download(&folder, &args, &done.file_name).unwrap(), payload);
    }
    assert_eq!(folder.files.len(), 6);
}

#[test]
fn an_empty_payload_round_trips() {
    let args = settings(0, true);
    let mut folder = Folder::new();
    let done = upload(&mut folder, &args, Some("empty.txt"), &[]).unwrap();
    assert_eq!(done.file_name, "empty.txt");
    assert_eq!(download(&folder, &args, "empty.txt").unwrap(), Vec::<u8>::new());
}

#[test]
fn report_pdf_is_stored_listed_and_downloaded() {
    let args = Args::default();
    let mut folder = Folder::new();
    let done = upload(&mut folder, &args, Some("report.PDF"), &[b"abc"]).unwrap();
    assert_eq!(done.file_name, "report.pdf");
    assert_eq!(
        artifact_store::files::get_extension(Some(&done.file_name)),
        Some("pdf".to_string())
    );
    let listing = file_list(Some(folder.snapshot())).unwrap();
    assert_eq!(listing.len(), 1);
    assert_eq!(listing[0].name, "report.pdf");
    assert_eq!(listing[0].size, 3);
    assert_eq!(listing[0].created_at, "1970-01-01T00:00:00+00:00");
    assert_eq!(download(&folder, &args, &done.file_name).unwrap(), b"abc".to_vec());
}

#[test]
fn traversal_names_are_refused_and_nothing_is_stored() {
    let args = settings(1024, true);
    let mut folder = Folder::new();
    for name in [
        "../escape.txt",
        "../../etc/passwd",
        "a/../b",
        "/etc/passwd",
        "\\\\host\\share",
        "C:\\x.txt",
        "..\\x",
        "..",
    ] {
        let e = upload(&mut folder, &args, Some(name), &[b"x"]).unwrap_err();
        assert_eq!(e.error, "InvalidNameError");
        assert_eq!(e.status(), 400);
    }
    assert!(folder.files.is_empty());
}

#[test]
fn a_missing_name_is_refused() {
    let args = settings(1024, true);
    let mut folder = Folder::new();
    let e = upload(&mut folder, &args, None, &[b"x"]).unwrap_err();
    assert_eq!(e.kind(), Some(ErrorKind::InvalidName));
    let e = upload(&mut folder, &args, Some(""), &[b"x"]).unwrap_err();
    assert_eq!(e.kind(), Some(ErrorKind::InvalidName));
    assert!(folder.files.is_empty());
}

#[test]
fn one_byte_over_the_maximum_is_too_large() {
    let args = settings(8, true);
    let mut folder = Folder::new();
    upload(&mut folder, &args, Some("kept.bin"), &[b"12345678"]).unwrap();
    let before = folder.total_size();
    let e = upload(&mut folder, &args, Some("big.bin"), &[b"123456789"]).unwrap_err();
    assert_eq!(e.error, "PayloadTooLargeError");
    assert_eq!(e.status(), 413);
    assert_eq!(folder.files.len(), 1);
    assert_eq!(folder.total_size(), before);
    assert!(folder.get("big.bin").is_none());
}

#[test]
fn the_chunk_that_crosses_the_maximum_closes_the_upload() {
    let args = settings(8, true);
    let mut folder = Folder::new();
    let e = upload(&mut folder, &args, Some("big.bin"), &[b"1234", b"5678", b"9"]).unwrap_err();
    assert_eq!(e.kind(), Some(ErrorKind::PayloadTooLarge));
    assert!(folder.files.is_empty());
}

#[test]
fn an_oversize_upload_does_not_replace_a_stored_file() {
    let args = settings(4, true);
    let mut folder = Folder::new();
    upload(&mut folder, &args, Some("f.txt"), &[b"old"]).unwrap();
    upload(&mut folder, &args, Some("f.txt"), &[b"toolong"]).unwrap_err();
    assert_eq!(folder.get("f.txt"), Some(&b"old".to_vec()));
}

#[test]
fn exactly_the_maximum_is_accepted() {
    let args = settings(8, true);
    let mut folder = Folder::new();
    let done = upload(&mut folder, &args, Some("fits.bin"), &[b"1234", b"5678"]).unwrap();
    assert_eq!(done.file_name, "fits.bin");
    assert_eq!(folder.get("fits.bin").unwrap().len(), 8);
}

#[test]
fn staged_bytes_over_the_maximum_are_refused_at_once() {
    let args = settings(8, true);
    let form = FileUploadForm { file_name: Some("a.txt".to_string()), len: 9 };
    let e = file_upload(&form, &args).unwrap_err();
    assert_eq!(e.kind(), Some(ErrorKind::PayloadTooLarge));
    let form = FileUploadForm { file_name: Some("a.txt".to_string()), len: 8 };
    let upload = file_upload(&form, &args).unwrap();
    assert_eq!(upload.staged(), 8);
    assert_eq!(upload.limit(), 8);
    assert_eq!(upload.phase(), Phase::Receiving);
}

#[test]
fn an_invalid_name_is_reported_before_the_size() {
    let args = settings(8, true);
    let form = FileUploadForm { file_name: Some("../a.txt".to_string()), len: 9 };
    let e = file_upload(&form, &args).unwrap_err();
    assert_eq!(e.kind(), Some(ErrorKind::InvalidName));
}

#[test]
fn huge_chunks_do_not_wrap_the_count() {
    let args = settings(u64::MAX, true);
    let form = FileUploadForm { file_name: Some("a".to_string()), len: 0 };
    let mut upload = file_upload(&form, &args).unwrap();
    assert_eq!(upload.step(UploadEvent::Chunk(u64::MAX - 1)), UploadAction::Append(u64::MAX - 1));
    assert_eq!(
        upload.step(UploadEvent::Chunk(2)),
        UploadAction::Discard(ErrorKind::PayloadTooLarge)
    );
    assert_eq!(upload.staged(), u64::MAX - 1);
}

#[test]
fn racing_uploads_leave_one_whole_file() {
    let args = settings(1024, true);
    let first_payload = vec![b'a'; 300];
    let second_payload = vec![b'b'; 200];
    for second_wins in [false, true] {
        let mut folder = Folder::new();
        let first = receive(&args, Some("same.TXT"), &[&first_payload[..150], &first_payload[150..]])
            .ok()
            .unwrap();
        let second = receive(&args, Some("same.txt"), &[&second_payload]).ok().unwrap();
        assert!(folder.files.is_empty());
        if second_wins {
            publish(&mut folder, first.0, first.1).unwrap();
            publish(&mut folder, second.0, second.1).unwrap();
        } else {
            publish(&mut folder, second.0, second.1).unwrap();
            publish(&mut folder, first.0, first.1).unwrap();
        }
        assert_eq!(folder.files.len(), 1);
        let stored = folder.get("same.txt").unwrap();
        assert_eq!(stored, if second_wins { &second_payload } else { &first_payload });
    }
}

#[test]
fn a_taken_name_is_a_conflict_where_files_are_kept() {
    let args = settings(1024, false);
    let mut folder = Folder::new();
    upload(&mut folder, &args, Some("f.txt"), &[b"first"]).unwrap();
    let e = upload(&mut folder, &args, Some("f.TXT"), &[b"second"]).unwrap_err();
    assert_eq!(e.error, "NameConflictError");
    assert_eq!(e.status(), 409);
    assert_eq!(folder.files.len(), 1);
    assert_eq!(folder.get("f.txt"), Some(&b"first".to_vec()));
}

#[test]
fn a_later_upload_replaces_where_files_are_replaced() {
    let args = settings(1024, true);
    let mut folder = Folder::new();
    upload(&mut folder, &args, Some("f.txt"), &[b"first"]).unwrap();
    upload(&mut folder, &args, Some("f.txt"), &[b"second"]).unwrap();
    assert_eq!(folder.files.len(), 1);
    assert_eq!(folder.get("f.txt"), Some(&b"second".to_vec()));
}

#[test]
fn download_of_an_unknown_name_is_not_found() {
    let args = settings(1024, true);
    let mut folder = Folder::new();
    upload(&mut folder, &args, Some("there.txt"), &[b"x"]).unwrap();
    let e = download(&folder, &args, "absent.txt").unwrap_err();
    assert_eq!(e.error, "NotFoundError");
    assert_eq!(e.status(), 404);
    assert_eq!(e.kind(), Some(ErrorKind::NotFound));
}

#[test]
fn download_of_an_escaping_name_is_invalid() {
    let args = settings(1024, true);
    let folder = Folder::new();
    for name in ["../secret", "/etc/passwd", "a/b", "..", ".", ""] {
        let e = download(&folder, &args, name).unwrap_err();
        assert_eq!(e.kind(), Some(ErrorKind::InvalidName));
    }
}

#[test]
fn download_is_by_the_exact_stored_name() {
    let args = settings(1024, true);
    let mut folder = Folder::new();
    let done = upload(&mut folder, &args, Some("Report.PDF"), &[b"abc"]).unwrap();
    assert_eq!(done.file_name, "Report.pdf");
    assert!(download(&folder, &args, "Report.pdf").is_ok());
    assert_eq!(
        download(&folder, &args, "Report.PDF").unwrap_err().kind(),
        Some(ErrorKind::NotFound)
    );
}

#[test]
fn an_unreadable_file_is_a_storage_failure() {
    let e = download_failure(false);
    assert_eq!(e.error, "StorageIOError");
    assert_eq!(e.status(), 500);
    let e = download_failure(true);
    assert_eq!(e.kind(), Some(ErrorKind::NotFound));
}

#[test]
fn a_failed_write_discards_the_staging_file() {
    let args = settings(1024, true);
    let form = FileUploadForm { file_name: Some("a.txt".to_string()), len: 0 };
    let mut upload = file_upload(&form, &args).unwrap();
    assert_eq!(upload.step(UploadEvent::Chunk(10)), UploadAction::Append(10));
    let action = upload.step(UploadEvent::Failed);
    assert_eq!(action, UploadAction::Discard(ErrorKind::StorageIo));
    assert_eq!(upload.phase(), Phase::Closed);
    let e = upload_response(&upload, action).unwrap().unwrap_err();
    assert_eq!(e.error, "StorageIOError");
    assert_eq!(upload.step(UploadEvent::EndOfStream), UploadAction::Nothing);
}

#[test]
fn a_failed_rename_is_a_storage_failure() {
    let args = settings(1024, true);
    let form = FileUploadForm { file_name: Some("a.txt".to_string()), len: 0 };
    let mut upload = file_upload(&form, &args).unwrap();
    assert_eq!(upload.step(UploadEvent::EndOfStream), UploadAction::Publish { replace: true });
    assert_eq!(upload.phase(), Phase::Publishing);
    assert_eq!(upload.step(UploadEvent::Failed), UploadAction::Discard(ErrorKind::StorageIo));
    assert_eq!(upload.phase(), Phase::Closed);
}

#[test]
fn a_cancelled_upload_is_abandoned_and_never_published() {
    let args = settings(1024, true);
    let form = FileUploadForm { file_name: Some("a.txt".to_string()), len: 0 };
    let mut upload = file_upload(&form, &args).unwrap();
    assert_eq!(upload.step(UploadEvent::Chunk(10)), UploadAction::Append(10));
    let action = upload.step(UploadEvent::Cancelled);
    assert_eq!(action, UploadAction::Abandon);
    assert!(upload_response(&upload, action).is_none());
    assert_eq!(upload.phase(), Phase::Closed);
    assert_eq!(upload.step(UploadEvent::EndOfStream), UploadAction::Nothing);
    assert_eq!(upload.step(UploadEvent::Published), UploadAction::Nothing);
    assert_eq!(upload.step(UploadEvent::Chunk(1)), UploadAction::Nothing);
}

#[test]
fn events_out_of_turn_change_nothing() {
    let args = settings(1024, false);
    let form = FileUploadForm { file_name: Some("a.txt".to_string()), len: 3 };
    let mut upload = file_upload(&form, &args).unwrap();
    assert_eq!(upload.step(UploadEvent::Published), UploadAction::Nothing);
    assert_eq!(upload.step(UploadEvent::NameTaken), UploadAction::Nothing);
    assert_eq!(upload.phase(), Phase::Receiving);
    assert_eq!(upload.step(UploadEvent::EndOfStream), UploadAction::Publish { replace: false });
    assert_eq!(upload.step(UploadEvent::Chunk(5)), UploadAction::Nothing);
    assert_eq!(upload.step(UploadEvent::EndOfStream), UploadAction::Nothing);
    assert_eq!(upload.step(UploadEvent::Cancelled), UploadAction::Nothing);
    assert_eq!(upload.phase(), Phase::Publishing);
    assert_eq!(upload.staged(), 3);
    assert_eq!(upload.step(UploadEvent::Published), UploadAction::Complete { size: 3 });
}

#[test]
fn the_upload_knows_its_name_and_destination() {
    let args = settings(1024, false);
    let form = FileUploadForm { file_name: Some("Pic.PNG".to_string()), len: 0 };
    let upload = file_upload(&form, &args).unwrap();
    assert_eq!(upload.stored_name(), "Pic.png");
    assert_eq!(upload.destination("uploads"), "uploads/Pic.png");
    assert!(!upload.overwrite());
    let upload = Upload::begin(Some("Pic.PNG"), 0, &settings(5, true)).ok().unwrap();
    assert!(upload.overwrite());
    assert_eq!(upload.limit(), 5);
    assert_eq!(Upload::begin(None, 0, &args).err(), Some(ErrorKind::InvalidName));
    assert_eq!(Upload::begin(Some("a"), 2000, &args).err(), Some(ErrorKind::PayloadTooLarge));
}

#[test]
fn only_a_finished_upload_is_answered() {
    let args = settings(1024, true);
    let form = FileUploadForm { file_name: Some("a.TXT".to_string()), len: 0 };
    let mut upload = file_upload(&form, &args).unwrap();
    assert!(upload_response(&upload, UploadAction::Append(1)).is_none());
    assert!(upload_response(&upload, UploadAction::Publish { replace: true }).is_none());
    assert!(upload_response(&upload, UploadAction::Nothing).is_none());
    upload.step(UploadEvent::EndOfStream);
    let action = upload.step(UploadEvent::Published);
    let done = upload_response(&upload, action).unwrap().unwrap();
    assert_eq!(done.file_name, "a.txt");
}

#[test]
fn distinct_uploads_are_all_listed_with_their_sizes() {
    let args = settings(1024, true);
    let mut folder = Folder::new();
    let uploads: [(&str, usize); 5] =
        [("e.bin", 5), ("a.bin", 0), ("d.bin", 700), ("b.bin", 1024), ("c.bin", 1)];
    for (name, size) in uploads {
        upload(&mut folder, &args, Some(name), &[&vec![7u8; size]]).unwrap();
    }
    let listing = file_list(Some(folder.snapshot())).unwrap();
    assert_eq!(listing.len(), 5);
    for (name, size) in uploads {
        let record = listing.iter().find(|r| r.name == name).unwrap();
        assert_eq!(record.size, size as u64);
    }
    let names: Vec<&str> = listing.iter().map(|r| r.name.as_str()).collect();
    assert_eq!(names, vec!["a.bin", "b.bin", "c.bin", "d.bin", "e.bin"]);
}
