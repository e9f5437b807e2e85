use lune_roblox::document::{Document, DocumentKind};
use lune_roblox::instance::Instance;
use lune_std_roblox::document::{failure, write_document, DocumentFailure, DocumentIssue};

fn read_place(bytes: Vec<u8>) -> Result<Instance, DocumentFailure> {
    let doc = Document::from_bytes(bytes, DocumentKind::Place).map_err(failure)?;
    doc.into_data_model_instance().map_err(failure)
}

fn read_model(bytes: Vec<u8>) -> Result<Vec<Instance>, DocumentFailure> {
    let doc = Document::from_bytes(bytes, DocumentKind::Model).map_err(failure)?;
    doc.into_instance_array().map_err(failure)
}

fn place_doc(class: &str) -> Result<Document, DocumentFailure> {
    Document::from_data_model_instance(Instance::new_orphaned(class)).map_err(failure)
}

#[test]
fn empty_place_round_trips_in_xml_and_binary() {
    let doc = place_doc("DataModel").ok().unwrap();
    let xml = write_document(&doc, Some(true)).ok().unwrap();
    assert!(xml.starts_with(b"<roblox "));
    let binary = write_document(&doc, None).ok().unwrap();
    assert!(binary.starts_with(b"<roblox!"));
    let read_back = read_place(xml).ok().unwrap();
    assert_eq!(read_back.get_class_name(), "DataModel");
    let read_back = read_place(binary).ok().unwrap();
    assert_eq!(read_back.get_class_name(), "DataModel");
}

#[test]
fn place_needs_a_data_model() {
    let err = place_doc("Part").err().unwrap();
    assert_eq!(err.issue, DocumentIssue::FromDataModelInvalidArgs);
    assert_eq!(
        err.message,
        "Failed to convert into a place - the given instance is not a DataModel"
    );
}

#[test]
fn model_round_trips_its_instances() {
    let part = Instance::new_orphaned("Part");
    part.set_name("Block");
    let doc = Document::from_instance_array(vec![part]).ok().unwrap();
    let bytes = write_document(&doc, Some(true)).ok().unwrap();
    let instances = read_model(bytes).ok().unwrap();
    assert_eq!(instances.len(), 1);
    assert_eq!(instances[0].get_class_name(), "Part");
    assert_eq!(instances[0].get_name(), "Block");
}

#[test]
fn kind_asked_for_decides_the_conversion() {
    let part = Instance::new_orphaned("Part");
    let doc = Document::from_instance_array(vec![part]).ok().unwrap();
    let bytes = write_document(&doc, None).ok().unwrap();
    assert!(read_model(bytes.clone()).is_ok());
    assert!(read_place(bytes).is_ok());
    let place = place_doc("DataModel").ok().unwrap();
    let bytes = write_document(&place, None).ok().unwrap();
    assert!(read_model(bytes).is_ok());
}

#[test]
fn bytes_without_header_are_refused() {
    let err = read_place(b"not a place file".to_vec()).err().unwrap();
    assert_eq!(err.issue, DocumentIssue::UnknownFormat);
    assert_eq!(err.message, "Unknown document format");
    let err = read_model(Vec::new()).err().unwrap();
    assert_eq!(err.message, "Unknown document format");
}

#[test]
fn read_errors_carry_their_detail() {
    let err = read_place(b"<roblox!garbage".to_vec()).err().unwrap();
    match &err.issue {
        DocumentIssue::ReadError(detail) => assert_eq!(
            err.message,
            format!("Failed to read document from buffer - {}", detail)
        ),
        other => panic!("unexpected issue {:?}", other),
    }
}

#[test]
fn model_refuses_a_data_model() {
    let err = Document::from_instance_array(vec![Instance::new_orphaned("DataModel")])
        .map_err(failure)
        .err()
        .unwrap();
    assert_eq!(err.issue, DocumentIssue::FromInstanceArrayInvalidArgs);
}

#[test]
fn written_files_open_with_their_header() {
    let part = Instance::new_orphaned("Part");
    let doc = Document::from_instance_array(vec![part]).ok().unwrap();
    assert_eq!(&write_document(&doc, Some(false)).ok().unwrap()[0..8], b"<roblox!");
    assert_eq!(&write_document(&doc, Some(true)).ok().unwrap()[0..8], b"<roblox ");
}

#[test]
fn binary_unless_xml_is_asked_for() {
    let part = Instance::new_orphaned("Part");
    part.set_name("Block");
    let doc = Document::from_instance_array(vec![part]).ok().unwrap();
    let none = write_document(&doc, None).ok().unwrap();
    let no = write_document(&doc, Some(false)).ok().unwrap();
    assert_eq!(none, no);
    assert_ne!(write_document(&doc, Some(true)).ok().unwrap(), none);
}

#[test]
fn failure_keeps_the_error_and_its_text() {
    let err = Document::from_bytes(b"<roblox!x".to_vec(), DocumentKind::Model).err().unwrap();
    let text = err.to_string();
    let f = failure(err);
    assert_eq!(f.message, text);
    assert_eq!(f.error.to_string(), text);
    assert!(matches!(f.issue, DocumentIssue::ReadError(_)));
}
