use agent_memory::embed::{Embedder, EmbedderNotSet};
use agent_memory::error::{BuildError, Error, StorageError};
use agent_memory::storage::{Storage, StorageNotSet};

#[test]
fn custom_error_keeps_its_message() {
    let e = Error::custom("something went sideways");
    match &e {
        Error::Custom(m) => assert_eq!(m, "something went sideways"),
        _ => panic!("expected the Custom variant"),
    }
    assert_eq!(e.message(), "something went sideways");
}

#[test]
fn storage_error_constructors() {
    let e = StorageError::embedding_not_exists("mem-7");
    assert!(matches!(&e, StorageError::EmbeddingNotExists(id) if id == "mem-7"));
    assert_eq!(e.message(), "Embedding with ID mem-7 doesn't exist in storage");

    let e = StorageError::mismatched_dimensions(3, 2);
    assert!(matches!(e, StorageError::MismatchedDimensions(3, 2)));
    assert_eq!(e.message(), "Mismatched dimensions when trying to store an embedding: 3, 2");
}

#[test]
fn build_error_messages() {
    assert_eq!(BuildError::EmbedderNotFound.message(), "Embedder not found");
    assert_eq!(BuildError::StorageNotFound.message(), "Storage not found");
}

#[test]
fn no_op_message() {
    assert_eq!(Error::NoOp.message(), "Type has no implementation");
}

#[test]
fn placeholders_always_report_no_op() {
    let embedder = EmbedderNotSet;
    assert!(matches!(embedder.embed_text("hello"), Err(Error::NoOp)));
    let mut storage = StorageNotSet;
    assert!(matches!(storage.count(), Err(Error::NoOp)));
    assert!(matches!(storage.delete("x".to_string()), Err(Error::NoOp)));
    assert!(matches!(storage.search(vec![1], 3), Err(Error::NoOp)));
}
