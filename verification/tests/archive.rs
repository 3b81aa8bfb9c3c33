use std::io::{Cursor, Write};

use gtav_coordinate_lookup::archive::{read_archive_entry, ArchiveError};
use zip::write::SimpleFileOptions;
use zip::{CompressionMethod, ZipWriter};

fn archive_with(name: &str, contents: &str) -> Vec<u8> {
    let mut writer = ZipWriter::new(Cursor::new(Vec::new()));
    let options = SimpleFileOptions::default().compression_method(CompressionMethod::Deflated);
    writer.start_file(name, options).unwrap();
    writer.write_all(contents.as_bytes()).unwrap();
    writer.finish().unwrap().into_inner()
}

#[test]
fn reads_the_named_entry() {
    let bytes = archive_with("nodes.json", "[{\"AreaId\": 1, \"Nodes\": []}]");
    let text = read_archive_entry(bytes, "nodes.json").ok().unwrap();
    assert_eq!(text, "[{\"AreaId\": 1, \"Nodes\": []}]");
}

#[test]
fn missing_entry_is_reported() {
    let bytes = archive_with("other.json", "{}");
    match read_archive_entry(bytes, "nodes.json") {
        Err(e @ ArchiveError::Entry(_)) => {
            assert!(e.message("nodes.json").starts_with("failed to read embedded nodes.json: "));
        }
        _ => panic!("expected a missing entry"),
    }
}

#[test]
fn bytes_that_are_no_archive_are_reported() {
    match read_archive_entry(b"not a zip".to_vec(), "nodes.json") {
        Err(e @ ArchiveError::Open(_)) => {
            assert!(e.message("nodes.json").starts_with("failed to open embedded nodes: "));
        }
        _ => panic!("expected an unreadable archive"),
    }
}
