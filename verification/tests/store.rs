use assistant_core::attachment::{AttachmentType, MessageAttachment};
use assistant_core::error::AppError;
use assistant_core::store::AttachmentStore;

fn row(id: i64, content: &str) -> MessageAttachment {
    MessageAttachment {
        id,
        message_id: 12,
        ..MessageAttachment::fresh(AttachmentType::Text, "o".to_string(), content.to_string())
    }
}

#[test]
fn rows_that_were_stored_are_loaded() {
    let mut store = AttachmentStore::from_rows(vec![row(3, "a"), row(7, "b"), row(5, "c")]).unwrap();
    assert_eq!(store.len(), 3);
    assert_eq!(store.row(1).id, 7);
    assert_eq!(store.row(1).message_id, 12);
    assert_eq!(store.ingest_inline("b".to_string(), "x".to_string(), AttachmentType::Text), Ok(7));
    assert_eq!(store.ingest_inline("d".to_string(), "x".to_string(), AttachmentType::Text), Ok(8));
    assert_eq!(store.len(), 4);
}

#[test]
fn no_rows_load_as_an_empty_store() {
    let mut store = AttachmentStore::from_rows(vec![]).unwrap();
    assert_eq!(store.len(), 0);
    assert_eq!(store.ingest_inline("a".to_string(), "x".to_string(), AttachmentType::Text), Ok(1));
}

#[test]
fn two_rows_with_one_hash_are_refused() {
    assert_eq!(
        AttachmentStore::from_rows(vec![row(1, "same"), row(2, "same")]).err(),
        Some(AppError::Persistence)
    );
}

#[test]
fn two_rows_with_one_id_are_refused() {
    assert_eq!(
        AttachmentStore::from_rows(vec![row(1, "a"), row(2, "b"), row(1, "c")]).err(),
        Some(AppError::Persistence)
    );
}

#[test]
fn row_whose_hash_is_not_the_digest_of_its_content_is_refused() {
    let mut bad = row(1, "a");
    bad.attachment_content = "changed".to_string();
    assert_eq!(AttachmentStore::from_rows(vec![bad]).err(), Some(AppError::Persistence));
    let mut bad = row(1, "a");
    bad.attachment_hash = bad.attachment_hash.to_uppercase();
    assert_eq!(AttachmentStore::from_rows(vec![bad]).err(), Some(AppError::Persistence));
}

#[test]
fn row_without_an_identifier_is_refused() {
    assert_eq!(AttachmentStore::from_rows(vec![row(0, "a")]).err(), Some(AppError::Persistence));
    assert_eq!(AttachmentStore::from_rows(vec![row(-4, "a")]).err(), Some(AppError::Persistence));
}

#[test]
fn store_without_identifiers_left_fails_and_stays_as_it_is() {
    assert_eq!(
        AttachmentStore::from_rows(vec![row(i64::MAX, "a")]).err(),
        Some(AppError::Persistence)
    );
    let mut store = AttachmentStore::from_rows(vec![row(i64::MAX - 1, "a")]).unwrap();
    assert_eq!(
        store.ingest_inline("a".to_string(), "x".to_string(), AttachmentType::Text),
        Ok(i64::MAX - 1)
    );
    assert_eq!(
        store.ingest_inline("b".to_string(), "x".to_string(), AttachmentType::Text),
        Err(AppError::Persistence)
    );
    assert_eq!(store.len(), 1);
}
