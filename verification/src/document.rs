//! Writing place and model files through `lune_roblox`, and the failures
//! of reading and writing them.

use vstd::prelude::*;

use lune_roblox::document::{Document, DocumentError, DocumentFormat};

use crate::choices::{output_format, output_format_of, FileFormat};
use vstd::string::StringExecFns;

verus! {

#[verifier::external_type_specification]
#[verifier::external_body]
pub struct ExDocument(Document);

#[verifier::external_type_specification]
#[verifier::external_body]
pub struct ExDocumentError(DocumentError);

/// The ways in which reading or writing a file fails, as `DocumentError`
/// has them.
#[derive(Debug, PartialEq, Eq)]
pub enum DocumentIssue {
    UnknownKind,
    UnknownFormat,
    ReadError(String),
    WriteError(String),
    IntoDataModelInvalidArgs,
    IntoInstanceArrayInvalidArgs,
    FromDataModelInvalidArgs,
    FromInstanceArrayInvalidArgs,
}

/// The message of an issue: `DocumentError`'s `Display`, as its `#[error]`
/// attributes write it.
pub open spec fn issue_text(issue: DocumentIssue) -> Seq<char> {
    match issue {
        DocumentIssue::UnknownKind => "Unknown document kind"@,
        DocumentIssue::UnknownFormat => "Unknown document format"@,
        DocumentIssue::ReadError(s) => "Failed to read document from buffer - "@ + s@,
        DocumentIssue::WriteError(s) => "Failed to write document to buffer - "@ + s@,
        DocumentIssue::IntoDataModelInvalidArgs =>
            "Failed to convert into a DataModel - the given document is not a place"@,
        DocumentIssue::IntoInstanceArrayInvalidArgs =>
            "Failed to convert into array of Instances - the given document is a model"@,
        DocumentIssue::FromDataModelInvalidArgs =>
            "Failed to convert into a place - the given instance is not a DataModel"@,
        DocumentIssue::FromInstanceArrayInvalidArgs =>
            "Failed to convert into a model - a given instance is a DataModel"@,
    }
}

/// The message of an issue.
pub fn issue_message(issue: &DocumentIssue) -> (m: String)
    ensures
        m@ == issue_text(*issue),
{
    match issue {
        DocumentIssue::UnknownKind => String::from_str("Unknown document kind"),
        DocumentIssue::UnknownFormat => String::from_str("Unknown document format"),
        DocumentIssue::ReadError(s) => String::from_str("Failed to read document from buffer - ").concat(s.as_str()),
        DocumentIssue::WriteError(s) => String::from_str("Failed to write document to buffer - ").concat(s.as_str()),
        DocumentIssue::IntoDataModelInvalidArgs => String::from_str(
            "Failed to convert into a DataModel - the given document is not a place",
        ),
        DocumentIssue::IntoInstanceArrayInvalidArgs => String::from_str(
            "Failed to convert into array of Instances - the given document is a model",
        ),
        DocumentIssue::FromDataModelInvalidArgs => String::from_str(
            "Failed to convert into a place - the given instance is not a DataModel",
        ),
        DocumentIssue::FromInstanceArrayInvalidArgs => String::from_str(
            "Failed to convert into a model - a given instance is a DataModel",
        ),
    }
}

/// Why a file could not be read or written: the issue and its message.
#[derive(Debug)]
pub struct DocumentFailure {
    pub issue: DocumentIssue,
    pub message: String,
    /// The error itself, as `lune_roblox` gave it.
    pub error: DocumentError,
}

/// Whether `bytes` open with the header of a Roblox file: `<roblox`, then
/// `!` (binary) or a space or `>` (XML): the test that lune's
/// `DocumentFormat::from_bytes` makes of a file's first bytes, restated.
pub open spec fn has_roblox_header(bytes: Seq<u8>) -> bool {
    &&& bytes.len() >= 8
    &&& bytes.take(7) == seq![0x3cu8, 0x72, 0x6f, 0x62, 0x6c, 0x6f, 0x78]
    &&& (bytes[7] == 0x21 || bytes[7] == 0x20 || bytes[7] == 0x3e)
}

/// The first eight bytes of a written file: `<roblox!` in binary
/// (`rbx_binary`'s `FILE_MAGIC_HEADER`), `<roblox ` in XML (`rbx_xml` opens
/// with the element `<roblox version="4">`, without an XML declaration).
pub open spec fn file_header(format: FileFormat) -> Seq<u8> {
    match format {
        FileFormat::Binary => seq![0x3cu8, 0x72, 0x6f, 0x62, 0x6c, 0x6f, 0x78, 0x21],
        FileFormat::Xml => seq![0x3cu8, 0x72, 0x6f, 0x62, 0x6c, 0x6f, 0x78, 0x20],
    }
}

/// Whether `bytes` open with the header written for `format`.
pub open spec fn opens_with_header(bytes: Seq<u8>, format: FileFormat) -> bool {
    bytes.len() >= 8 && bytes.take(8) == file_header(format)
}

/// A file that opens with a written header passes the check of the header
/// that reading makes.
pub proof fn lemma_written_header_readable(bytes: Seq<u8>, format: FileFormat)
    requires
        opens_with_header(bytes, format),
    ensures
        has_roblox_header(bytes),
{
    let h = file_header(format);
    assert(bytes[7] == bytes.take(8)[7]);
    assert(bytes.take(7) =~= bytes.take(8).take(7));
    assert(h.take(7) =~= seq![0x3cu8, 0x72, 0x6f, 0x62, 0x6c, 0x6f, 0x78]);
    assert(h[7] == 0x21 || h[7] == 0x20);
}

/// The bytes that `Document::to_bytes_with_format` writes for `doc` in
/// `format`, or `None` where encoding fails. They depend on the document and
/// the format alone: the encoders walk the tree in a fixed order.
pub uninterp spec fn encoding_of(doc: Document, format: FileFormat) -> Option<Seq<u8>>;

/// The issue that a `DocumentError` is: its variant and message field.
pub uninterp spec fn issue_of(e: DocumentError) -> DocumentIssue;

/// `Document::to_bytes_with_format`: encodes a document in the given
/// format. Stated: it returns the encoding of the document in that format,
/// and fails exactly where that encoding does not exist, with a
/// `WriteError`; what it writes opens with the header of that format (the
/// encoders write it first). The bytes themselves are named, not stated.
#[verifier::external_body]
fn document_to_bytes(doc: &Document, format: FileFormat) -> (r: Result<Vec<u8>, DocumentError>)
    ensures
        r matches Ok(bytes) ==> encoding_of(*doc, format) == Some(bytes@),
        r is Err ==> encoding_of(*doc, format) is None,
        r matches Ok(bytes) ==> opens_with_header(bytes@, format),
        r matches Err(e) ==> issue_of(e) is WriteError,
{
    let format = match format {
        FileFormat::Binary => DocumentFormat::Binary,
        FileFormat::Xml => DocumentFormat::Xml,
    };
    doc.to_bytes_with_format(format)
}

/// `DocumentError` as this library's `DocumentIssue`, one variant for each,
/// with the message fields copied. Stated: the result is the issue that
/// the error is, a name for the variant and its field.
#[verifier::external_body]
fn document_issue(e: &DocumentError) -> (i: DocumentIssue)
    ensures
        i == issue_of(*e),
{
    match e {
        DocumentError::UnknownKind => DocumentIssue::UnknownKind,
        DocumentError::UnknownFormat => DocumentIssue::UnknownFormat,
        DocumentError::ReadError(s) => DocumentIssue::ReadError(s.clone()),
        DocumentError::WriteError(s) => DocumentIssue::WriteError(s.clone()),
        DocumentError::IntoDataModelInvalidArgs => DocumentIssue::IntoDataModelInvalidArgs,
        DocumentError::IntoInstanceArrayInvalidArgs => DocumentIssue::IntoInstanceArrayInvalidArgs,
        DocumentError::FromDataModelInvalidArgs => DocumentIssue::FromDataModelInvalidArgs,
        DocumentError::FromInstanceArrayInvalidArgs => DocumentIssue::FromInstanceArrayInvalidArgs,
    }
}

/// Whether a failure carries the message of its issue.
pub open spec fn well_described(f: DocumentFailure) -> bool {
    f.message@ == issue_text(f.issue)
}

/// The failure for an error: the error, its issue, and the issue's message.
pub fn failure(e: DocumentError) -> (f: DocumentFailure)
    ensures
        f.issue == issue_of(e),
        f.error == e,
        well_described(f),
{
    let issue = document_issue(&e);
    let message = issue_message(&issue);
    DocumentFailure { issue, message, error: e }
}

/// The bytes that writing `doc` gives: its encoding in XML where `as_xml`
/// is `Some(true)` and in binary otherwise.
pub open spec fn written(doc: Document, as_xml: Option<bool>) -> Option<Seq<u8>> {
    encoding_of(doc, output_format_of(as_xml))
}

/// Encodes a document, in XML where `as_xml` is `Some(true)` and in binary
/// otherwise: it returns that encoding, and fails exactly where there is
/// none, with a write error. What it writes opens with the header of that
/// format, and so passes lune's header test.
pub fn write_document(doc: &Document, as_xml: Option<bool>) -> (r: Result<Vec<u8>, DocumentFailure>)
    ensures
        r is Ok <==> written(*doc, as_xml) is Some,
        r matches Ok(bytes) ==> written(*doc, as_xml) == Some(bytes@),
        r matches Ok(bytes) ==> opens_with_header(bytes@, output_format_of(as_xml))
            && has_roblox_header(bytes@),
        r matches Err(f) ==> well_described(f) && f.issue is WriteError && f.issue == issue_of(f.error),
{
    match document_to_bytes(doc, output_format(as_xml)) {
        Ok(bytes) => {
            proof { lemma_written_header_readable(bytes@, output_format_of(as_xml)); }
            Ok(bytes)
        },
        Err(e) => Err(failure(e)),
    }
}

/// Only `Some(true)` asks for XML: writing with `None` and with
/// `Some(false)` gives the same bytes, the binary encoding.
pub proof fn lemma_binary_unless_xml(doc: Document)
    ensures
        written(doc, None) == written(doc, Some(false)),
        written(doc, None) == encoding_of(doc, FileFormat::Binary),
        written(doc, Some(true)) == encoding_of(doc, FileFormat::Xml),
{
}

} // verus!
