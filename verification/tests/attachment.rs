use assistant_core::attachment::{
    classify_mime, classify_path, content_hash, image_data_uri, mime_of_path,
    prepare_file_content, AttachmentResult, AttachmentType, MessageAttachment, UNATTACHED,
};
use assistant_core::error::AppError;
use assistant_core::store::{
    add_attachment, add_attachment_by_url, add_attachment_content, plan_ingest, AttachmentStore,
    IngestPlan,
};
use sha2::{Digest, Sha256};

const PNG: [u8; 10] = [0x89, 0x50, 0x4e, 0x47, 0x0d, 0x0a, 0x1a, 0x0a, 0x00, 0x00];

fn sha256_hex(text: &str) -> String {
    hex::encode(Sha256::digest(text.as_bytes()))
}

#[test]
fn hash_is_the_sha256_of_the_text_in_hexadecimal() {
    assert_eq!(
        content_hash("hello"),
        "2cf24dba5fb0a30e26e83b2ac5b9e29e1b161e5c1fa7425e73043362938b9824"
    );
    assert_eq!(
        content_hash(""),
        "e3b0c44298fc1c149afbf4c8996fb92427ae41e4649b934ca495991b7852b855"
    );
    assert_eq!(content_hash("h\u{e9}llo \u{4f60}"), sha256_hex("h\u{e9}llo \u{4f60}"));
}

#[test]
fn media_type_is_guessed_from_the_extension() {
    assert_eq!(mime_of_path("picture.png"), "image/png");
    assert_eq!(mime_of_path("/home/u/Photo.JPG"), "image/jpeg");
    assert_eq!(mime_of_path("notes.txt"), "text/plain");
    assert_eq!(mime_of_path("blob.bin"), "application/octet-stream");
    assert_eq!(mime_of_path("no_extension"), "application/octet-stream");
}

#[test]
fn png_path_is_an_image() {
    assert_eq!(classify_path("picture.png"), Ok(AttachmentType::Image));
}

#[test]
fn txt_path_is_text() {
    assert_eq!(classify_path("notes.txt"), Ok(AttachmentType::Text));
}

#[test]
fn bin_path_is_unsupported() {
    assert_eq!(classify_path("blob.bin"), Err(AppError::UnsupportedType));
    assert_eq!(classify_path("no_extension"), Err(AppError::UnsupportedType));
    assert_eq!(classify_path("movie.mp4"), Err(AppError::UnsupportedType));
}

#[test]
fn only_text_and_image_types_are_supported() {
    assert_eq!(classify_mime("text/plain"), Ok(AttachmentType::Text));
    assert_eq!(classify_mime("text/"), Ok(AttachmentType::Text));
    assert_eq!(classify_mime("image/svg+xml"), Ok(AttachmentType::Image));
    assert_eq!(classify_mime("application/json"), Err(AppError::UnsupportedType));
    assert_eq!(classify_mime("Text/plain"), Err(AppError::UnsupportedType));
    assert_eq!(classify_mime("text"), Err(AppError::UnsupportedType));
    assert_eq!(classify_mime(""), Err(AppError::UnsupportedType));
}

#[test]
fn image_is_stored_as_a_data_uri() {
    assert_eq!(
        image_data_uri("image/png", &PNG).as_deref(),
        Some("data:image/png;base64,iVBORw0KGgoAAA==")
    );
    assert_eq!(image_data_uri("image/jpeg", &[0xff, 0xd8, 0xff]).as_deref(), Some("data:image/jpeg;base64,/9j/"));
    assert_eq!(image_data_uri("image/gif", b"GIF89a").as_deref(), Some("data:image/gif;base64,R0lGODlh"));
    assert_eq!(image_data_uri("image/webp", b"RIFF").as_deref(), Some("data:image/webp;base64,UklGRg=="));
    assert_eq!(image_data_uri("image/png", &[]).as_deref(), Some("data:image/png;base64,"));
}

#[test]
fn other_image_types_are_not_stored() {
    assert_eq!(image_data_uri("image/svg+xml", b"<svg/>"), None);
    assert_eq!(image_data_uri("image/bmp", b"BM"), None);
    assert_eq!(image_data_uri("text/plain", b"x"), None);
    assert_eq!(
        prepare_file_content("image/svg+xml", b"<svg/>"),
        Err(AppError::UnsupportedType)
    );
}

#[test]
fn text_file_is_stored_as_its_text() {
    assert_eq!(
        prepare_file_content("text/plain", "gr\u{fc}\u{df}e\n".as_bytes()),
        Ok((AttachmentType::Text, "gr\u{fc}\u{df}e\n".to_string()))
    );
}

#[test]
fn text_file_that_is_no_text_cannot_be_read() {
    assert_eq!(prepare_file_content("text/plain", &[0x66, 0xff]), Err(AppError::Transport));
}

#[test]
fn file_of_another_type_is_unsupported() {
    assert_eq!(
        prepare_file_content("application/octet-stream", b"x"),
        Err(AppError::UnsupportedType)
    );
}

#[test]
fn fresh_attachment_belongs_to_no_message() {
    let a = MessageAttachment::fresh(AttachmentType::Text, "n.txt".to_string(), "abc".to_string());
    assert_eq!(a.id, 0);
    assert_eq!(a.message_id, UNATTACHED);
    assert_eq!(a.message_id, -1);
    assert_eq!(a.attachment_type, AttachmentType::Text);
    assert_eq!(a.attachment_url, "n.txt");
    assert_eq!(a.attachment_content, "abc");
    assert_eq!(a.attachment_hash, sha256_hex("abc"));
    assert!(!a.use_vector);
    assert_eq!(a.token_count, Some(0));
}

#[test]
fn same_content_twice_gives_the_same_id_and_one_row() {
    let mut store = AttachmentStore::new();
    let first = store.ingest_inline("same".to_string(), "a.txt".to_string(), AttachmentType::Text);
    let second = store.ingest_inline("same".to_string(), "b.txt".to_string(), AttachmentType::Image);
    assert_eq!(first, Ok(1));
    assert_eq!(second, first);
    assert_eq!(store.len(), 1);
    assert_eq!(store.row(0).attachment_url, "a.txt");
    assert_eq!(store.row(0).attachment_type, AttachmentType::Text);
}

#[test]
fn same_bytes_by_path_and_inline_give_the_same_id() {
    let mut store = AttachmentStore::new();
    let by_path = store.ingest_from_path("notes.txt", Some(b"shared text"));
    let inline =
        store.ingest_inline("shared text".to_string(), "pasted".to_string(), AttachmentType::Text);
    assert_eq!(by_path, Ok(1));
    assert_eq!(inline, Ok(1));
    assert_eq!(store.len(), 1);
}

#[test]
fn different_content_gives_different_ids() {
    let mut store = AttachmentStore::new();
    assert_eq!(store.ingest_inline("a".to_string(), "n".to_string(), AttachmentType::Text), Ok(1));
    assert_eq!(store.ingest_inline("b".to_string(), "n".to_string(), AttachmentType::Text), Ok(2));
    assert_eq!(store.ingest_inline("a".to_string(), "n".to_string(), AttachmentType::Text), Ok(1));
    assert_eq!(store.ingest_inline("c".to_string(), "n".to_string(), AttachmentType::Text), Ok(3));
    assert_eq!(store.len(), 3);
}

#[test]
fn hash_of_an_image_covers_the_whole_data_uri() {
    let mut store = AttachmentStore::new();
    let id = store.ingest_from_path("shot.png", Some(&PNG)).unwrap();
    let row = store.row(0);
    assert_eq!(row.id, id);
    assert_eq!(row.attachment_type, AttachmentType::Image);
    assert!(row.attachment_content.starts_with("data:image/png;base64,"));
    assert_eq!(row.attachment_content, "data:image/png;base64,iVBORw0KGgoAAA==");
    assert_eq!(row.attachment_hash, sha256_hex("data:image/png;base64,iVBORw0KGgoAAA=="));
    assert_ne!(row.attachment_hash, hex::encode(Sha256::digest(PNG)));
    assert_eq!(row.message_id, -1);
    assert_eq!(row.attachment_url, "shot.png");
}

#[test]
fn text_file_is_ingested_as_its_text() {
    let mut store = AttachmentStore::new();
    let id = store.ingest_from_path("dir/notes.txt", Some("line one\nline two".as_bytes()));
    assert_eq!(id, Ok(1));
    assert_eq!(store.row(0).attachment_type, AttachmentType::Text);
    assert_eq!(store.row(0).attachment_content, "line one\nline two");
    assert_eq!(store.row(0).attachment_hash, sha256_hex("line one\nline two"));
}

#[test]
fn missing_file_is_not_found() {
    let mut store = AttachmentStore::new();
    assert_eq!(store.ingest_from_path("gone.png", None), Err(AppError::NotFound));
    assert_eq!(store.ingest_from_path("gone.bin", None), Err(AppError::NotFound));
    assert_eq!(store.len(), 0);
}

#[test]
fn unsupported_file_is_refused_and_not_stored() {
    let mut store = AttachmentStore::new();
    assert_eq!(store.ingest_from_path("blob.bin", Some(b"x")), Err(AppError::UnsupportedType));
    assert_eq!(store.ingest_from_path("drawing.svg", Some(b"<svg/>")), Err(AppError::UnsupportedType));
    assert_eq!(store.len(), 0);
}

#[test]
fn row_is_found_by_its_hash() {
    let mut store = AttachmentStore::new();
    store.ingest_inline("x".to_string(), "n".to_string(), AttachmentType::Text).unwrap();
    store.ingest_inline("y".to_string(), "m".to_string(), AttachmentType::Text).unwrap();
    let found = store.read_by_attachment_hash(&sha256_hex("y")).unwrap();
    assert_eq!(found.id, 2);
    assert_eq!(found.attachment_content, "y");
    assert!(store.read_by_attachment_hash(&sha256_hex("z")).is_none());
    assert!(store.read_by_attachment_hash("").is_none());
}

#[test]
fn plan_reuses_the_row_that_was_found() {
    let existing = MessageAttachment { id: 41, ..MessageAttachment::fresh(AttachmentType::Text, "o".to_string(), "c".to_string()) };
    let candidate = MessageAttachment::fresh(AttachmentType::Image, "p".to_string(), "c".to_string());
    match plan_ingest(Some(&existing), candidate) {
        IngestPlan::Reuse(id) => assert_eq!(id, 41),
        other => panic!("{:?}", other),
    }
}

#[test]
fn plan_creates_the_candidate_where_nothing_was_found() {
    let candidate = MessageAttachment::fresh(AttachmentType::Image, "p".to_string(), "c".to_string());
    match plan_ingest(None, candidate) {
        IngestPlan::Create(row) => {
            assert_eq!(row.attachment_url, "p");
            assert_eq!(row.message_id, -1);
            assert_eq!(row.attachment_hash, sha256_hex("c"));
        }
        other => panic!("{:?}", other),
    }
}

#[test]
fn command_for_inline_content() {
    let mut store = AttachmentStore::new();
    let r = add_attachment_content(&mut store, "text".to_string(), "n".to_string(), 2);
    assert_eq!(r, Ok(AttachmentResult { attachment_id: 1 }));
    assert_eq!(store.row(0).attachment_type, AttachmentType::Text);
    let r = add_attachment_content(&mut store, "picture".to_string(), "p".to_string(), 1);
    assert_eq!(r, Ok(AttachmentResult { attachment_id: 2 }));
    assert_eq!(store.row(1).attachment_type, AttachmentType::Image);
}

#[test]
fn command_refuses_a_kind_that_is_not_known() {
    let mut store = AttachmentStore::new();
    for code in [0, 3, 6, -1, i64::MAX, i64::MIN] {
        let r = add_attachment_content(&mut store, "text".to_string(), "n".to_string(), code);
        assert_eq!(r, Err(AppError::UnsupportedType), "{}", code);
        let r = add_attachment(&mut store, None, None, Some("c".to_string()), Some("n".to_string()), Some(code));
        assert_eq!(r, Err(AppError::UnsupportedType), "{}", code);
    }
    assert_eq!(store.len(), 0);
}

#[test]
fn kinds_are_numbered() {
    assert_eq!(AttachmentType::from_code(1), Ok(AttachmentType::Image));
    assert_eq!(AttachmentType::from_code(2), Ok(AttachmentType::Text));
    assert_eq!(AttachmentType::from_code(0), Err(AppError::UnsupportedType));
    assert_eq!(AttachmentType::from_code(3), Err(AppError::UnsupportedType));
    assert_eq!(AttachmentType::Image.code(), 1);
    assert_eq!(AttachmentType::Text.code(), 2);
}

#[test]
fn command_for_a_file() {
    let mut store = AttachmentStore::new();
    let r = add_attachment_by_url(&mut store, "a.png".to_string(), Some(&PNG));
    assert_eq!(r, Ok(AttachmentResult { attachment_id: 1 }));
    let r = add_attachment_by_url(&mut store, "a.png".to_string(), None);
    assert_eq!(r, Err(AppError::NotFound));
}

#[test]
fn command_prefers_the_file() {
    let mut store = AttachmentStore::new();
    let r = add_attachment(
        &mut store,
        Some("a.txt".to_string()),
        Some(b"from file"),
        Some("inline".to_string()),
        Some("n".to_string()),
        Some(2),
    );
    assert_eq!(r, Ok(AttachmentResult { attachment_id: 1 }));
    assert_eq!(store.row(0).attachment_content, "from file");
}

#[test]
fn command_takes_inline_content_without_a_file() {
    let mut store = AttachmentStore::new();
    let r = add_attachment(
        &mut store,
        None,
        None,
        Some("inline".to_string()),
        Some("n".to_string()),
        Some(1),
    );
    assert_eq!(r, Ok(AttachmentResult { attachment_id: 1 }));
    assert_eq!(store.row(0).attachment_content, "inline");
    assert_eq!(store.row(0).attachment_type, AttachmentType::Image);
}

#[test]
fn command_refuses_incomplete_arguments() {
    let mut store = AttachmentStore::new();
    let r = add_attachment(&mut store, None, None, None, None, None);
    assert_eq!(r, Err(AppError::InvalidArguments));
    let r = add_attachment(&mut store, None, Some(b"x"), Some("c".to_string()), None, Some(2));
    assert_eq!(r, Err(AppError::InvalidArguments));
    let r = add_attachment(&mut store, None, None, Some("c".to_string()), Some("n".to_string()), None);
    assert_eq!(r, Err(AppError::InvalidArguments));
    assert_eq!(store.len(), 0);
}
