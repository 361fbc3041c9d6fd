use std::io::Write;

use chaudloader::overlay::{Overlay, OverlayError, Reader};

fn base_archive() -> Vec<u8> {
    let mut zw = zip::ZipWriter::new(std::io::Cursor::new(Vec::new()));
    let stored = zip::write::FileOptions::default().compression_method(zip::CompressionMethod::Stored);
    zw.start_file("a.txt", stored).unwrap();
    zw.write_all(b"hello").unwrap();
    zw.add_directory("b/", stored).unwrap();
    let deflated = zip::write::FileOptions::default().compression_method(zip::CompressionMethod::Deflated);
    zw.start_file("c.txt", deflated).unwrap();
    zw.write_all(b"untouched contents, compressed").unwrap();
    zw.finish().unwrap().into_inner()
}

fn overlay() -> Overlay {
    Overlay::new(Reader::new(base_archive()).unwrap())
}

#[test]
fn write_then_pack_then_reread() {
    let mut ov = overlay();
    ov.write("a.txt", b"HELLO".to_vec()).unwrap();
    let packed = ov.pack_into().unwrap();
    let mut reread = Reader::new(packed).unwrap();
    assert_eq!(reread.get("a.txt").unwrap(), b"HELLO".to_vec());
    assert_eq!(reread.get("c.txt").unwrap(), b"untouched contents, compressed".to_vec());
    assert_eq!(reread.len(), 3);
}

#[test]
fn write_directory_is_refused() {
    let mut ov = overlay();
    assert!(matches!(ov.write("b/", b"x".to_vec()), Err(OverlayError::IsDirectory)));
    assert!(!ov.has_overlaid_files());
}

#[test]
fn write_missing_entry_is_refused() {
    let mut ov = overlay();
    assert!(matches!(ov.write("nope.txt", b"x".to_vec()), Err(OverlayError::NotFound)));
    assert!(!ov.has_overlaid_files());
}

#[test]
fn read_prefers_override_and_last_write_wins() {
    let mut ov = overlay();
    assert_eq!(ov.read("a.txt").unwrap(), b"hello".to_vec());
    ov.write("a.txt", b"one".to_vec()).unwrap();
    ov.write("a.txt", b"two".to_vec()).unwrap();
    assert!(ov.has_overlaid_files());
    assert_eq!(ov.read("a.txt").unwrap(), b"two".to_vec());
    assert!(matches!(ov.read("missing"), Err(OverlayError::NotFound)));
}

#[test]
fn pack_keeps_order_and_compression_methods() {
    let mut ov = overlay();
    ov.write("a.txt", b"HELLO".to_vec()).unwrap();
    ov.write("c.txt", b"new compressed contents".to_vec()).unwrap();
    let packed = ov.pack_into().unwrap();
    let mut za = zip::ZipArchive::new(std::io::Cursor::new(packed)).unwrap();
    let names: Vec<String> = (0..za.len()).map(|i| za.by_index_raw(i).unwrap().name().to_string()).collect();
    assert_eq!(names, vec!["a.txt".to_string(), "b/".to_string(), "c.txt".to_string()]);
    assert_eq!(za.by_name("a.txt").unwrap().compression(), zip::CompressionMethod::Stored);
    assert_eq!(za.by_name("c.txt").unwrap().compression(), zip::CompressionMethod::Deflated);
    assert!(za.by_name("b/").unwrap().is_dir());
}

#[test]
fn pack_without_overrides_copies_entries() {
    let mut ov = overlay();
    let packed = ov.pack_into().unwrap();
    let mut reread = Reader::new(packed).unwrap();
    assert_eq!(reread.get("a.txt").unwrap(), b"hello".to_vec());
    assert_eq!(reread.get("c.txt").unwrap(), b"untouched contents, compressed".to_vec());
}

#[test]
fn reader_refuses_non_archive() {
    assert!(matches!(Reader::new(b"not a zip".to_vec()), Err(OverlayError::Zip(_))));
}

#[test]
fn scenario_stored_entry_and_directory() {
    let mut zw = zip::ZipWriter::new(std::io::Cursor::new(Vec::new()));
    let stored = zip::write::FileOptions::default().compression_method(zip::CompressionMethod::Stored);
    zw.start_file("a.txt", stored).unwrap();
    zw.write_all(b"hello").unwrap();
    zw.add_directory("b/", stored).unwrap();
    let base = zw.finish().unwrap().into_inner();

    let mut ov = Overlay::new(Reader::new(base).unwrap());
    ov.write("a.txt", b"HELLO".to_vec()).unwrap();
    let w = ov.pack_into().unwrap();
    let mut reopened = Reader::new(w).unwrap();
    assert_eq!(reopened.get("a.txt").unwrap(), b"HELLO".to_vec());
    assert!(matches!(ov.write("b/", b"x".to_vec()), Err(OverlayError::IsDirectory)));
}

#[test]
fn into_overlaid_files_hands_out_overrides() {
    let mut ov = overlay();
    ov.write("a.txt", b"x".to_vec()).unwrap();
    let files = ov.into_overlaid_files();
    assert_eq!(files.get("a.txt"), Some(&b"x".to_vec()));
    assert_eq!(files.len(), 1);
}
