use base64::Engine;
use beam_agent::filetransfer::{
    download_chunk_message, download_done_message, download_step, nth_candidate, sanitize_filename,
    unique_path, unique_path_among, DownloadProbe, DownloadReply, DownloadStep, FileMetadata,
    FileRead, FileTransferManager, DOWNLOAD_CHUNK_SIZE, MAX_CONCURRENT_TRANSFERS, MAX_FILENAME_LEN,
    MAX_FILE_SIZE,
};
use std::collections::HashMap;

const HOME: &str = "/home/user";

fn manager() -> FileTransferManager {
    FileTransferManager::new(HOME.to_string())
}

fn encode(bytes: &[u8]) -> String {
    base64::engine::general_purpose::STANDARD.encode(bytes)
}

/// A regular file at `path`, which is no symbolic link.
fn file(path: &str, len: u64) -> DownloadProbe {
    DownloadProbe {
        canonical: Some(path.to_string()),
        canonical_home: Some(HOME.to_string()),
        metadata: Some(FileMetadata { is_file: true, len }),
    }
}

fn names(list: &[&str]) -> Vec<String> {
    list.iter().map(|s| s.to_string()).collect()
}

#[test]
fn sanitize_valid_filename() {
    assert_eq!(sanitize_filename("hello.txt").unwrap(), "hello.txt");
    assert_eq!(
        sanitize_filename("my file (1).pdf").unwrap(),
        "my file (1).pdf"
    );
}

#[test]
fn sanitize_strips_directory() {
    assert_eq!(sanitize_filename("some/path/file.txt").unwrap(), "file.txt");
    assert_eq!(
        sanitize_filename("/absolute/path/doc.pdf").unwrap(),
        "doc.pdf"
    );
}

#[test]
fn sanitize_rejects_path_traversal() {
    assert!(sanitize_filename("..").is_err());
    assert!(
        sanitize_filename("../../../etc/passwd").unwrap_or_default() != "../../../etc/passwd"
    );
    // After stripping to basename, ../../../etc/passwd -> passwd (valid)
    assert_eq!(sanitize_filename("../../../etc/passwd").unwrap(), "passwd");
}

#[test]
fn sanitize_rejects_null_bytes() {
    assert!(sanitize_filename("file\0.txt").is_err());
}

#[test]
fn sanitize_rejects_empty() {
    assert!(sanitize_filename("").is_err());
}

#[test]
fn sanitize_rejects_too_long() {
    let long_name = "a".repeat(256);
    assert!(sanitize_filename(&long_name).is_err());
}

#[test]
fn sanitize_rejects_hidden_files() {
    assert!(sanitize_filename(".bashrc").is_err());
    assert!(sanitize_filename(".env").is_err());
    // .ssh/authorized_keys strips to "authorized_keys" which is valid
    assert_eq!(
        sanitize_filename(".ssh/authorized_keys").unwrap(),
        "authorized_keys"
    );
}

#[test]
fn sanitize_rejects_dot_dot() {
    assert!(sanitize_filename("..").is_err());
    assert!(sanitize_filename(".").is_err());
}

#[test]
fn sanitize_rejects_pure_path_separator() {
    // A single "/" has no basename after strip → invalid filename.
    let result = sanitize_filename("/");
    assert!(result.is_err());
}

#[test]
fn sanitize_rejects_filename_with_embedded_separator() {
    // A backslash separates nothing on Unix, but a name with one is refused.
    let result = sanitize_filename("evil\\name.txt");
    assert!(result.is_err());
}

#[test]
fn sanitize_accepts_max_length_filename() {
    // Exactly MAX_FILENAME_LEN chars is accepted; one more is rejected.
    let at_limit = "a".repeat(MAX_FILENAME_LEN);
    assert!(sanitize_filename(&at_limit).is_ok());
    let over_limit = "a".repeat(MAX_FILENAME_LEN + 1);
    assert!(sanitize_filename(&over_limit).is_err());
}

#[test]
fn filename_errors_are_exact() {
    let error = |name: &str| sanitize_filename(name).unwrap_err();
    assert_eq!(error(""), "Empty filename");
    assert_eq!(error("a\0b"), "Filename contains null byte");
    assert!(sanitize_filename(&"\u{00E5}".repeat(127)).is_ok());
    // 128 letters, but 256 bytes.
    assert!(sanitize_filename(&"\u{00E5}".repeat(128)).is_err());
}

#[test]
fn sanitized_name_stays_as_it_is() {
    let once = sanitize_filename("some/path/file.txt").unwrap();
    assert_eq!(sanitize_filename(&once).unwrap(), once);
}

#[test]
fn unique_path_no_conflict() {
    assert_eq!(
        unique_path("/tmp", "beam-test.txt", &Vec::new()),
        "/tmp/beam-test.txt"
    );
}

#[test]
fn size_limit_validation() {
    let mut mgr = manager();
    let result = mgr.handle_file_start("test1", "big.bin", MAX_FILE_SIZE + 1);
    assert!(result.is_err());
    assert!(result.unwrap_err().contains("too large"));
    assert!(mgr.handle_file_start("test1", "big.bin", MAX_FILE_SIZE).is_ok());
}

#[test]
fn full_transfer_roundtrip() {
    let mut mgr = manager();
    let content = b"Hello, file transfer!";
    mgr.handle_file_start("t1", "test.txt", content.len() as u64)
        .unwrap();
    let write = mgr.handle_file_chunk("t1", &encode(content)).unwrap();
    assert_eq!(write.temp_path, "/tmp/beam-transfer-t1");
    assert_eq!(write.bytes, content);
    let done = mgr.handle_file_done("t1").unwrap();
    assert_eq!(done.name, "test.txt");
    assert_eq!(done.received, content.len() as u64);
    assert_eq!(done.temp_path, "/tmp/beam-transfer-t1");
    assert_eq!(done.downloads_dir, "/home/user/Downloads");
}

#[test]
fn file_in_pieces_arrives_whole() {
    let mut mgr = manager();
    let content: Vec<u8> = (0..=255).collect();
    mgr.handle_file_start("t1", "all.bin", content.len() as u64)
        .unwrap();
    let mut written = Vec::new();
    for piece in content.chunks(100) {
        written.extend(mgr.handle_file_chunk("t1", &encode(piece)).unwrap().bytes);
    }
    assert_eq!(written, content);
    assert_eq!(mgr.handle_file_done("t1").unwrap().received, 256);
}

#[test]
fn handle_file_start_rejects_duplicate_id() {
    let mut mgr = manager();
    mgr.handle_file_start("dup-id", "a.txt", 10).unwrap();
    let result = mgr.handle_file_start("dup-id", "b.txt", 10);
    assert!(result.is_err());
    assert!(result.unwrap_err().contains("already in progress"));
}

#[test]
fn handle_file_start_rejects_when_concurrent_limit_reached() {
    let mut mgr = manager();
    for i in 0..MAX_CONCURRENT_TRANSFERS {
        let id = format!("concur-{i}");
        mgr.handle_file_start(&id, &format!("f{i}.bin"), 10).unwrap();
    }
    let result = mgr.handle_file_start("one-too-many", "extra.bin", 10);
    assert!(result.is_err());
    assert!(result.unwrap_err().contains("Too many concurrent"));
}

#[test]
fn handle_file_start_rejects_invalid_filename() {
    assert!(manager().handle_file_start("hidden-id", ".secret", 10).is_err());
}

#[test]
fn handle_file_chunk_rejects_unknown_id() {
    let result = manager().handle_file_chunk("unknown", &encode(b"data"));
    assert!(result.unwrap_err().message.contains("No active transfer"));
}

#[test]
fn handle_file_chunk_rejects_invalid_base64() {
    let mut mgr = manager();
    mgr.handle_file_start("b64-id", "file.bin", 10).unwrap();
    assert!(mgr
        .handle_file_chunk("b64-id", "!!!not-valid-base64!!!")
        .is_err());
    // The transfer goes on.
    assert!(mgr.handle_file_chunk("b64-id", &encode(b"ok")).is_ok());
}

#[test]
fn handle_file_chunk_rejects_payload_exceeding_declared_size() {
    let mut mgr = manager();
    mgr.handle_file_start("over", "file.bin", 5).unwrap();
    let error = mgr
        .handle_file_chunk("over", &encode(b"too-many-bytes"))
        .unwrap_err();
    assert!(error.message.contains("more data than declared"));
    assert_eq!(error.discard.as_deref(), Some("/tmp/beam-transfer-over"));
    // The transfer is gone.
    let followup = mgr.handle_file_chunk("over", &encode(b"x")).unwrap_err();
    assert!(followup.message.contains("No active transfer"));
    assert_eq!(followup.discard, None);
}

#[test]
fn given_bytes_are_taken_as_they_are() {
    let mut mgr = manager();
    mgr.handle_file_start("raw", "file.bin", 3).unwrap();
    assert_eq!(mgr.take_chunk("raw", vec![1, 2]).unwrap().bytes, vec![1, 2]);
    assert!(mgr.take_chunk("raw", vec![3, 4]).is_err());
}

#[test]
fn handle_file_done_rejects_unknown_id() {
    let result = manager().handle_file_done("unknown-done");
    assert!(result.unwrap_err().contains("No active transfer"));
}

#[test]
fn removed_transfer_is_gone() {
    let mut mgr = manager();
    mgr.handle_file_start("t", "a.txt", 3).unwrap();
    mgr.forget("t");
    assert!(mgr.handle_file_done("t").is_err());
    mgr.handle_file_start("t", "a.txt", 3).unwrap();
}

#[test]
fn explicit_cleanup_removes_all_pending() {
    let mut mgr = manager();
    for id in ["a", "b", "c"] {
        mgr.handle_file_start(id, "f.bin", 10).unwrap();
    }
    assert_eq!(
        mgr.cleanup(),
        names(&[
            "/tmp/beam-transfer-a",
            "/tmp/beam-transfer-b",
            "/tmp/beam-transfer-c"
        ])
    );
    // The same id can start again.
    mgr.handle_file_start("a", "f.bin", 10).unwrap();
}

#[test]
fn handle_file_start_creates_temp_file_at_well_known_path() {
    assert_eq!(
        manager().handle_file_start("path-test", "f.bin", 10).unwrap(),
        "/tmp/beam-transfer-path-test"
    );
}

#[test]
fn unique_path_with_collision_appends_numeric_suffix() {
    assert_eq!(
        unique_path("/d", "doc.txt", &names(&["doc.txt"])),
        "/d/doc(1).txt"
    );
}

#[test]
fn unique_path_with_extension_preserves_extension() {
    assert_eq!(
        unique_path("/d", "photo.jpg", &names(&["photo.jpg", "photo(1).jpg"])),
        "/d/photo(2).jpg"
    );
}

#[test]
fn unique_path_no_extension_skips_dot_in_suffix() {
    assert_eq!(unique_path("/d", "README", &names(&["README"])), "/d/README(1)");
}

#[test]
fn unique_path_999_collisions_falls_back_to_uuid_suffix() {
    let mut taken = names(&["x.bin"]);
    for i in 1..=999 {
        taken.push(format!("x({i}).bin"));
    }
    let result = unique_path("/d", "x.bin", &taken);
    assert!(result.starts_with("/d/x-"), "got: {result}");
    assert!(result.ends_with(".bin"), "got: {result}");
    // A UUID is 36 characters long.
    assert_eq!(result.len(), "/d/x-".len() + 36 + ".bin".len());
    assert_ne!(result, unique_path("/d", "x.bin", &taken));
    assert_eq!(
        unique_path_among("/d", "x.bin", &taken, "suffix"),
        "/d/x-suffix.bin"
    );
}

#[test]
fn unique_path_999_collisions_no_extension_falls_back_to_uuid_suffix() {
    let mut taken = names(&["note"]);
    for i in 1..=999 {
        taken.push(format!("note({i})"));
    }
    let result = unique_path("/d", "note", &taken);
    assert!(result.starts_with("/d/note-"), "got: {result}");
    assert!(!result.contains('.'), "got: {result}");
}

#[test]
fn download_validate_rejects_outside_home() {
    let result = manager().validate_download_path("/etc/passwd", &file("/etc/passwd", 10));
    assert!(result.unwrap_err().contains("outside home directory"));
    // Beside the home directory is outside it.
    let result = manager().validate_download_path("/home/user2/a", &file("/home/user2/a", 10));
    assert!(result.is_err());
}

#[test]
fn download_validate_rejects_symlink_escape() {
    let result = manager().validate_download_path("/home/user/escape", &file("/etc/passwd", 10));
    assert!(result.is_err());
}

#[test]
fn download_validate_rejects_nonexistent() {
    let probe = DownloadProbe {
        canonical: None,
        canonical_home: Some(HOME.to_string()),
        metadata: None,
    };
    assert!(manager()
        .validate_download_path("/home/user/nonexistent.txt", &probe)
        .is_err());
}

#[test]
fn download_validate_rejects_directory() {
    let mut probe = file("/home/user/subdir", 4096);
    probe.metadata = Some(FileMetadata {
        is_file: false,
        len: 4096,
    });
    let result = manager().validate_download_path("/home/user/subdir", &probe);
    assert!(result.unwrap_err().contains("Not a regular file"));
}

#[test]
fn download_validate_accepts_valid_file() {
    let result = manager().validate_download_path("/home/user/test.txt", &file("/home/user/test.txt", 5));
    assert_eq!(result.unwrap(), "/home/user/test.txt");
}

#[test]
fn download_validate_relative_path() {
    let mgr = manager();
    assert_eq!(mgr.requested_path("doc.pdf").unwrap(), "/home/user/doc.pdf");
    assert_eq!(mgr.requested_path("/etc/hosts").unwrap(), "/etc/hosts");
    let result = mgr.validate_download_path("doc.pdf", &file("/home/user/doc.pdf", 11));
    assert_eq!(result.unwrap(), "/home/user/doc.pdf");
}

#[test]
fn download_validate_rejects_empty_path() {
    let result = manager().validate_download_path("", &file(HOME, 0));
    assert!(result.unwrap_err().contains("Empty path"));
}

#[test]
fn download_validate_rejects_path_with_null_byte() {
    let result = manager().validate_download_path("file\0name.txt", &file(HOME, 0));
    assert!(result.unwrap_err().contains("null byte"));
}

#[test]
fn download_validate_rejects_oversized_file() {
    let path = "/home/user/big.bin";
    let result = manager().validate_download_path(path, &file(path, MAX_FILE_SIZE + 1));
    assert!(result.unwrap_err().contains("too large"));
    assert!(manager()
        .validate_download_path(path, &file(path, MAX_FILE_SIZE))
        .is_ok());
}

#[test]
fn download_roundtrip() {
    let content = b"Download test content!";
    let path = "/home/user/download_me.txt";
    let mgr = manager();
    let reply = mgr.handle_download_request(path, &file(path, content.len() as u64));
    let (id, message) = match reply {
        DownloadReply::Start { id, path: p, size, message } => {
            assert_eq!(p, path);
            assert_eq!(size, content.len() as u64);
            (id, message)
        }
        other => panic!("expected Start, got {other:?}"),
    };
    let start: serde_json::Value = serde_json::from_str(&message).unwrap();
    assert_eq!(start["t"], "fds");
    assert_eq!(start["name"], "download_me.txt");
    assert_eq!(start["size"], content.len() as u64);
    assert_eq!(start["id"].as_str().unwrap(), id);

    let mut msgs = vec![message];
    msgs.extend(streamed(&id, path, content));
    assert!(msgs.len() >= 3);
    let mut reconstructed = Vec::new();
    for msg in &msgs[1..msgs.len() - 1] {
        let chunk: serde_json::Value = serde_json::from_str(msg).unwrap();
        assert_eq!(chunk["t"], "fdc");
        assert_eq!(chunk["id"].as_str().unwrap(), id);
        let decoded = base64::engine::general_purpose::STANDARD
            .decode(chunk["data"].as_str().unwrap())
            .unwrap();
        reconstructed.extend_from_slice(&decoded);
    }
    assert_eq!(reconstructed, content);

    let done: serde_json::Value = serde_json::from_str(msgs.last().unwrap()).unwrap();
    assert_eq!(done["t"], "fdd");
    assert_eq!(done["id"].as_str().unwrap(), id);
}

/// The messages that follow the first one, for a file with this content.
fn streamed(id: &str, path: &str, content: &[u8]) -> Vec<String> {
    let mut reads: Vec<Vec<u8>> = content
        .chunks(DOWNLOAD_CHUNK_SIZE)
        .map(|piece| piece.to_vec())
        .collect();
    reads.push(Vec::new());
    reads
        .into_iter()
        .map(|read| match download_step(id, path, FileRead::Bytes(read)) {
            DownloadStep::Send { message } => message,
            DownloadStep::Finish { message } => message,
            DownloadStep::Fail { error } => panic!("{error}"),
        })
        .collect()
}

#[test]
fn large_downloads_come_in_pieces() {
    let content: Vec<u8> = (0..40_000u32).map(|i| (i % 251) as u8).collect();
    let messages = streamed("id-1", "/home/user/a.bin", &content);
    assert_eq!(messages.len(), 4);
    let mut carried = Vec::new();
    for message in &messages[..3] {
        let chunk: serde_json::Value = serde_json::from_str(message).unwrap();
        let piece = base64::engine::general_purpose::STANDARD
            .decode(chunk["data"].as_str().unwrap())
            .unwrap();
        assert!(!piece.is_empty() && piece.len() <= DOWNLOAD_CHUNK_SIZE);
        carried.extend_from_slice(&piece);
    }
    assert_eq!(carried, content);
    assert_eq!(messages[3], "{\"id\":\"id-1\",\"t\":\"fdd\"}");
    assert_eq!(messages[3], download_done_message("id-1"));
    assert_eq!(messages[0], download_chunk_message("id-1", &content[..DOWNLOAD_CHUNK_SIZE]));
    assert_eq!(streamed("id-1", "/home/user/empty", &[]).len(), 1);
}

#[test]
fn downloads_that_cannot_be_read_fail() {
    assert_eq!(
        download_step("id", "/home/user/a", FileRead::NotOpened("denied".to_string())),
        DownloadStep::Fail {
            error: "Failed to open: /home/user/a: denied".to_string()
        }
    );
    assert_eq!(
        download_step("id", "/home/user/a", FileRead::NotRead("i/o error".to_string())),
        DownloadStep::Fail {
            error: "Failed to read file: i/o error".to_string()
        }
    );
}

#[test]
fn handle_file_done_renames_with_unique_path_when_destination_exists() {
    let mut files: HashMap<String, Vec<u8>> = HashMap::new();
    files.insert("/home/user/Downloads/test.txt".to_string(), b"PRE-EXISTING".to_vec());
    let mut mgr = manager();
    let content = b"new content";
    let temp = mgr
        .handle_file_start("collide", "test.txt", content.len() as u64)
        .unwrap();
    files.insert(temp.clone(), Vec::new());
    for piece in [&content[..4], &content[4..]] {
        let b64 = base64::engine::general_purpose::STANDARD.encode(piece);
        let write = mgr.handle_file_chunk("collide", &b64).unwrap();
        assert_eq!(write.temp_path, temp);
        files.get_mut(&write.temp_path).unwrap().extend(write.bytes);
    }
    let done = mgr.handle_file_done("collide").unwrap();
    let dest = unique_path(&done.downloads_dir, &done.name, &vec!["test.txt".to_string()]);
    let moved = files.remove(&done.temp_path).unwrap();
    files.insert(dest, moved);

    assert_eq!(files["/home/user/Downloads/test.txt"], b"PRE-EXISTING");
    assert_eq!(files["/home/user/Downloads/test(1).txt"], content);
    assert_eq!(files.len(), 2);
    assert!(mgr.handle_file_done("collide").is_err());
}

#[test]
fn download_error_sends_fde_message() {
    let probe = file("/etc/shadow", 10);
    match manager().handle_download_request("/etc/shadow", &probe) {
        DownloadReply::Refuse { id, error, message } => {
            let v: serde_json::Value = serde_json::from_str(&message).unwrap();
            assert_eq!(v["t"], "fde");
            assert_eq!(v["id"].as_str().unwrap(), id);
            assert_eq!(v["error"].as_str().unwrap(), error);
            assert!(error.contains("outside home directory"));
        }
        other => panic!("expected Refuse, got {other:?}"),
    }
}

#[test]
fn reply_under_a_known_id_is_exact() {
    let path = "/home/user/a.txt";
    match manager().download_reply("id-1", path, &file(path, 7)) {
        DownloadReply::Start { message, .. } => assert_eq!(
            message,
            "{\"id\":\"id-1\",\"name\":\"a.txt\",\"size\":7,\"t\":\"fds\"}"
        ),
        other => panic!("expected Start, got {other:?}"),
    }
}

#[test]
fn candidates_are_numbered() {
    assert_eq!(nth_candidate("a.tar.gz", 0), "a.tar.gz");
    assert_eq!(nth_candidate("a.tar.gz", 1), "a.tar(1).gz");
    assert_eq!(nth_candidate("README", 999), "README(999)");
    // Only the names before the first free one need to be listed.
    let taken = vec!["a.txt".to_string(), "a(1).txt".to_string()];
    assert_eq!(unique_path_among("/d", "a.txt", &taken, "id"), "/d/a(2).txt");
}
