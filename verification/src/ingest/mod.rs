//! Markdown ingestion: normalize, hash, name and chunk vault sources.

use vstd::prelude::*;

use crate::contracts::IndexFileErrorKind;

pub mod chunker;
pub mod hash;
pub mod normalize;
pub mod path;
pub mod markdown;
pub mod title;
pub mod walk;

verus! {

/// `std::io::Error`, carried through unchanged.
#[verifier::external_type_specification]
#[verifier::external_body]
pub struct ExIoError(std::io::Error);

/// Failures raised while turning vault files into chunks.
#[derive(Debug)]
pub enum IngestError {
    /// Underlying filesystem failure.
    Io(std::io::Error),
    /// A source file is not valid UTF-8.
    InvalidUtf8(String),
    /// A path argument is not beneath the vault root.
    OutsideVault(String),
    /// A path argument is not beneath the workspace root.
    OutsideWorkspace(String),
    /// A derived source key violated the key contract.
    InvalidSourceKey(String),
    /// The vault root itself does not exist.
    VaultMissing(String),
}

/// The report kind each failure maps onto.
pub open spec fn ingest_error_kind(e: IngestError) -> IndexFileErrorKind {
    match e {
        IngestError::InvalidUtf8(_) => IndexFileErrorKind::InvalidUtf8,
        IngestError::OutsideVault(_) => IndexFileErrorKind::OutsideVault,
        IngestError::OutsideWorkspace(_) => IndexFileErrorKind::OutsideVault,
        IngestError::InvalidSourceKey(_) => IndexFileErrorKind::InvalidSourceKey,
        IngestError::Io(_) => IndexFileErrorKind::Other,
        IngestError::VaultMissing(_) => IndexFileErrorKind::Other,
    }
}

/// The sentence a failure is reported with; an IO failure's own text comes
/// from the operating system and is not stated.
pub open spec fn ingest_error_text(e: IngestError) -> Option<Seq<char>> {
    match e {
        IngestError::Io(_) => None,
        IngestError::InvalidUtf8(p) => Some("invalid utf-8 in "@ + p@),
        IngestError::OutsideVault(p) => Some("path "@ + p@ + " is outside vault root"@),
        IngestError::OutsideWorkspace(p) => Some("path "@ + p@ + " is outside the workspace"@),
        IngestError::InvalidSourceKey(p) => Some("invalid source key for "@ + p@),
        IngestError::VaultMissing(p) => Some("vault root not found: "@ + p@),
    }
}

/// Wraps the `Display` rendering of an IO error; the text is the platform's.
#[verifier::external_body]
fn io_error_text(error: &std::io::Error) -> (text: String)
{
    format!("{}", error)
}

impl IngestError {
    /// The failure as a human sentence.
    pub fn describe(&self) -> (text: String)
        ensures
            ingest_error_text(*self) matches Some(t) ==> text@ == t,
    {
        let (head, tail, rest): (&str, &String, &str) = match self {
            IngestError::Io(error) => {
                let mut text = crate::text::owned("io error: ");
                let detail = io_error_text(error);
                crate::text::push_str(&mut text, detail.as_str());
                return text;
            },
            IngestError::InvalidUtf8(p) => ("invalid utf-8 in ", p, ""),
            IngestError::OutsideVault(p) => ("path ", p, " is outside vault root"),
            IngestError::OutsideWorkspace(p) => ("path ", p, " is outside the workspace"),
            IngestError::InvalidSourceKey(p) => ("invalid source key for ", p, ""),
            IngestError::VaultMissing(p) => ("vault root not found: ", p, ""),
        };
        let mut text = crate::text::owned(head);
        crate::text::push_str(&mut text, tail.as_str());
        crate::text::push_str(&mut text, rest);
        proof {
            reveal_strlit("");
        }
        text
    }

    /// The machine-readable kind this failure maps onto in an index report.
    pub fn kind(&self) -> (k: IndexFileErrorKind)
        ensures
            k == ingest_error_kind(*self),
    {
        match self {
            IngestError::InvalidUtf8(_) => IndexFileErrorKind::InvalidUtf8,
            IngestError::OutsideVault(_) => IndexFileErrorKind::OutsideVault,
            IngestError::OutsideWorkspace(_) => IndexFileErrorKind::OutsideVault,
            IngestError::InvalidSourceKey(_) => IndexFileErrorKind::InvalidSourceKey,
            IngestError::Io(_) => IndexFileErrorKind::Other,
            IngestError::VaultMissing(_) => IndexFileErrorKind::Other,
        }
    }
}

} // verus!
