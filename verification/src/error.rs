//! The library's error taxonomy.

use vstd::prelude::*;
use vstd::string::StringExecFns;

use crate::id_gen::dec_seq;

verus! {

/// The rendered message of a build error.
pub open spec fn build_error_text(e: BuildError) -> Seq<char> {
    match e {
        BuildError::EmbedderNotFound => "Embedder not found"@,
        BuildError::StorageNotFound => "Storage not found"@,
    }
}

/// The rendered message of a storage error.
pub open spec fn storage_error_text(e: StorageError) -> Seq<char> {
    match e {
        StorageError::EmbeddingNotExists(id) => "Embedding with ID "@ + id@
            + " doesn't exist in storage"@,
        StorageError::MismatchedDimensions(want, got) => "Mismatched dimensions when trying to store an embedding: "@
            + dec_seq(want as nat) + ", "@ + dec_seq(got as nat),
    }
}

/// Any kind of error the library surfaces.
#[derive(Debug)]
pub enum Error {
    /// A mandatory collaborator was missing at construction time.
    Build(BuildError),
    /// A storage operation was rejected.
    Storage(StorageError),
    /// An escape hatch for collaborator-specific failures.
    Custom(String),
    /// An operation was invoked on a placeholder "not configured"
    /// implementation; a programming error, not a runtime condition.
    NoOp,
}

impl Error {
    /// Wraps a caller-supplied message in the `Custom` variant.
    pub fn custom(input: &str) -> (r: Self)
        ensures
            r matches Error::Custom(m) && m@ == input@,
    {
        Error::Custom(input.to_owned())
    }

    /// A human-readable description of the error.
    pub fn message(&self) -> (r: String)
        ensures
            self matches Error::Build(e) ==> r@ == build_error_text(*e),
            self matches Error::Storage(e) ==> r@ == storage_error_text(*e),
            self matches Error::Custom(m) ==> r@ == m@,
            self is NoOp ==> r@ == "Type has no implementation"@,
    {
        match self {
            Error::Build(err) => err.message(),
            Error::Storage(err) => err.message(),
            Error::Custom(err) => err.clone(),
            Error::NoOp => String::from_str("Type has no implementation"),
        }
    }
}

/// A mandatory dependency that was not supplied to a builder.
#[derive(Clone, Copy, Debug, PartialEq, Eq, Structural)]
pub enum BuildError {
    EmbedderNotFound,
    StorageNotFound,
}

impl BuildError {
    /// A human-readable description of the error.
    pub fn message(&self) -> (r: String)
        ensures
            r@ == build_error_text(*self),
    {
        match self {
            BuildError::EmbedderNotFound => String::from_str("Embedder not found"),
            BuildError::StorageNotFound => String::from_str("Storage not found"),
        }
    }
}

/// A semantic storage failure.
#[derive(Debug)]
pub enum StorageError {
    /// No embedding is stored under the given identifier.
    EmbeddingNotExists(String),
    /// An embedding's length did not match the store's dimensionality;
    /// the fields are the store's dimensionality and the offered length.
    MismatchedDimensions(usize, usize),
}

impl Clone for Error {
    /// Cloning keeps the variant and its message.
    fn clone(&self) -> (r: Self)
        ensures
            r == *self,
    {
        match self {
            Error::Build(err) => Error::Build(*err),
            Error::Storage(err) => Error::Storage(err.clone()),
            Error::Custom(err) => Error::Custom(err.clone()),
            Error::NoOp => Error::NoOp,
        }
    }
}

impl Clone for StorageError {
    /// Cloning keeps the variant and its fields.
    fn clone(&self) -> (r: Self)
        ensures
            r == *self,
    {
        match self {
            StorageError::EmbeddingNotExists(id) => StorageError::EmbeddingNotExists(id.clone()),
            StorageError::MismatchedDimensions(want, got) => StorageError::MismatchedDimensions(
                *want,
                *got,
            ),
        }
    }
}

impl StorageError {
    /// Create an error where an embedding with a given identifier does not
    /// exist.
    pub fn embedding_not_exists(id: &str) -> (r: Self)
        ensures
            r matches StorageError::EmbeddingNotExists(m) && m@ == id@,
    {
        StorageError::EmbeddingNotExists(id.to_owned())
    }

    /// Create an error where the store's dimensionality and the
    /// dimensionality of the vector to be added do not match up.
    pub fn mismatched_dimensions(store_dims: usize, embed_dims: usize) -> (r: Self)
        ensures
            r == StorageError::MismatchedDimensions(store_dims, embed_dims),
    {
        StorageError::MismatchedDimensions(store_dims, embed_dims)
    }

    /// A human-readable description of the error.
    pub fn message(&self) -> (r: String)
        ensures
            r@ == storage_error_text(*self),
    {
        match self {
            StorageError::EmbeddingNotExists(id) => {
                let mut s = String::from_str("Embedding with ID ");
                s.append(id.as_str());
                s.append(" doesn't exist in storage");
                proof {
                    assert(s@ =~= "Embedding with ID "@ + id@ + " doesn't exist in storage"@);
                }
                s
            },
            StorageError::MismatchedDimensions(store_dims, embed_dims) => {
                let mut s = String::from_str(
                    "Mismatched dimensions when trying to store an embedding: ",
                );
                push_usize_decimal(&mut s, *store_dims);
                s.append(", ");
                push_usize_decimal(&mut s, *embed_dims);
                proof {
                    assert(s@ =~= "Mismatched dimensions when trying to store an embedding: "@
                        + dec_seq(*store_dims as nat) + ", "@ + dec_seq(*embed_dims as nat));
                }
                s
            },
        }
    }
}

/// Appends the decimal rendering of a machine-sized number to `s`.
fn push_usize_decimal(s: &mut String, n: usize)
    ensures
        final(s)@ == old(s)@ + dec_seq(n as nat),
{
    crate::id_gen::push_decimal(s, n as u64);
    proof {
        assert(n as u64 as nat == n as nat);
    }
}

} // verus!
