use amrust::threemf_reader::{
    extract_member_ending_with, load_threemf_get_root_model_file_as_string, ArchiveError,
};
use std::io::{Cursor, Write};
use zip::write::SimpleFileOptions;
use zip::{CompressionMethod, ZipWriter};

fn archive_with(members: &[(&str, &[u8])], method: CompressionMethod) -> Vec<u8> {
    let mut writer = ZipWriter::new(Cursor::new(Vec::new()));
    for (name, body) in members {
        let options = SimpleFileOptions::default().compression_method(method);
        writer.start_file(*name, options).unwrap();
        writer.write_all(body).unwrap();
    }
    writer.finish().unwrap().into_inner()
}

fn stored(members: &[(&str, &[u8])]) -> Vec<u8> {
    archive_with(members, CompressionMethod::Stored)
}

fn position_of(haystack: &[u8], needle: &[u8]) -> usize {
    haystack
        .windows(needle.len())
        .position(|window| window == needle)
        .unwrap()
}

#[test]
fn test_load_threemf_get_root_model_file_as_string() {
    let bytes = stored(&[("3D/3dmodel.model", b"Test Passed")]);
    let string = load_threemf_get_root_model_file_as_string(&bytes).unwrap();
    assert!(
        string == "Test Passed",
        "3dmodel.model file is not read correctly"
    );
}

#[test]
fn threemf_reader_test_load_threemf_get_root_model_file_as_string() {
    let bytes = archive_with(
        &[
            ("[Content_Types].xml", b"<Types/>"),
            ("_rels/.rels", b"<Relationships/>"),
            ("3D/3dmodel.model", b"Test Passed"),
        ],
        CompressionMethod::Deflated,
    );
    let string = load_threemf_get_root_model_file_as_string(&bytes).unwrap();
    assert!(
        string == "Test Passed",
        "3dmodel.model file is not read correctly"
    );
}

#[test]
fn member_with_the_suffix_is_extracted() {
    let bytes = stored(&[("3D/3dmodel.model", b"Test Passed")]);
    assert_eq!(
        extract_member_ending_with(&bytes, ".model"),
        Ok("Test Passed".to_string())
    );
}

#[test]
fn no_member_with_the_suffix_gives_the_empty_text() {
    let bytes = stored(&[("readme.txt", b"hello"), ("model.xml", b"<model/>")]);
    assert_eq!(extract_member_ending_with(&bytes, ".model"), Ok(String::new()));
    assert_eq!(load_threemf_get_root_model_file_as_string(&bytes), Ok(String::new()));
}

#[test]
fn archive_without_members_gives_the_empty_text() {
    let bytes = stored(&[]);
    assert_eq!(extract_member_ending_with(&bytes, ".model"), Ok(String::new()));
}

#[test]
fn member_of_no_length_gives_the_empty_text() {
    let bytes = stored(&[("empty.model", b"")]);
    assert_eq!(extract_member_ending_with(&bytes, ".model"), Ok(String::new()));
}

#[test]
fn first_member_with_the_suffix_wins() {
    let bytes = stored(&[
        ("notes.txt", b"skipped"),
        ("b.model", b"first"),
        ("a.model", b"second"),
    ]);
    assert_eq!(extract_member_ending_with(&bytes, ".model"), Ok("first".to_string()));
    assert_eq!(extract_member_ending_with(&bytes, "a.model"), Ok("second".to_string()));
    assert_eq!(extract_member_ending_with(&bytes, ".txt"), Ok("skipped".to_string()));
}

#[test]
fn suffix_is_matched_at_the_end_of_the_name_only() {
    let bytes = stored(&[("x.model.bak", b"backup"), ("model", b"short"), ("y.MODEL", b"upper")]);
    assert_eq!(extract_member_ending_with(&bytes, ".model"), Ok(String::new()));
    assert_eq!(extract_member_ending_with(&bytes, "model"), Ok("short".to_string()));
    assert_eq!(extract_member_ending_with(&bytes, ".bak"), Ok("backup".to_string()));
}

#[test]
fn empty_suffix_matches_the_first_member() {
    let bytes = stored(&[("one", b"1"), ("two", b"2")]);
    assert_eq!(extract_member_ending_with(&bytes, ""), Ok("1".to_string()));
}

#[test]
fn names_and_texts_beyond_ascii_are_handled() {
    let bytes = stored(&[("mod\u{e8}le.model", "gr\u{fc}\u{df}e \u{4f60}\u{597d}".as_bytes())]);
    assert_eq!(
        extract_member_ending_with(&bytes, "\u{e8}le.model"),
        Ok("gr\u{fc}\u{df}e \u{4f60}\u{597d}".to_string())
    );
    assert_eq!(extract_member_ending_with(&bytes, "ele.model"), Ok(String::new()));
}

#[test]
fn compressed_member_is_decompressed() {
    let body = "<model>".to_string() + &"<vertex/>".repeat(500) + "</model>";
    let bytes = archive_with(&[("3D/3dmodel.model", body.as_bytes())], CompressionMethod::Deflated);
    assert!(bytes.len() < body.len());
    assert_eq!(extract_member_ending_with(&bytes, ".model"), Ok(body));
}

#[test]
fn bytes_that_are_no_archive_are_corrupt() {
    assert_eq!(
        extract_member_ending_with(b"this is plain text", ".model"),
        Err(ArchiveError::Corrupt)
    );
    assert_eq!(extract_member_ending_with(b"", ".model"), Err(ArchiveError::Corrupt));
    assert_eq!(load_threemf_get_root_model_file_as_string(b"PK"), Err(ArchiveError::Corrupt));
}

#[test]
fn member_that_is_no_text_is_corrupt() {
    let bytes = stored(&[("bad.model", &[0xff, 0xfe, 0x00, 0x80])]);
    assert_eq!(extract_member_ending_with(&bytes, ".model"), Err(ArchiveError::Corrupt));
}

#[test]
fn member_with_damaged_data_is_corrupt() {
    let mut bytes = stored(&[("3D/3dmodel.model", b"Test Passed")]);
    let at = position_of(&bytes, b"Test Passed");
    bytes[at] = b'B';
    assert_eq!(extract_member_ending_with(&bytes, ".model"), Err(ArchiveError::Corrupt));
    assert_eq!(extract_member_ending_with(&bytes, ".txt"), Ok(String::new()));
}

#[test]
fn member_that_cannot_be_opened_before_the_match_is_corrupt() {
    let mut bytes = stored(&[("first.txt", b"one"), ("second.model", b"two")]);
    bytes[0] ^= 0xff;
    assert_eq!(extract_member_ending_with(&bytes, ".model"), Err(ArchiveError::Corrupt));
}

#[test]
fn member_that_cannot_be_opened_after_the_match_is_not_looked_at() {
    let mut bytes = stored(&[("first.model", b"one"), ("second.txt", b"two")]);
    let at = position_of(&bytes, b"one") + 3;
    assert_eq!(&bytes[at..at + 2], b"PK");
    bytes[at] ^= 0xff;
    assert_eq!(extract_member_ending_with(&bytes, ".model"), Ok("one".to_string()));
    assert_eq!(extract_member_ending_with(&bytes, ".txt"), Err(ArchiveError::Corrupt));
}

#[test]
fn extraction_gives_the_same_text_each_time() {
    let bytes = archive_with(
        &[("a.txt", b"alpha"), ("3D/3dmodel.model", b"<model/>")],
        CompressionMethod::Deflated,
    );
    let first = extract_member_ending_with(&bytes, ".model");
    let second = extract_member_ending_with(&bytes, ".model");
    assert_eq!(first, Ok("<model/>".to_string()));
    assert_eq!(first, second);

    let broken = b"not an archive".to_vec();
    assert_eq!(
        extract_member_ending_with(&broken, ".model"),
        extract_member_ending_with(&broken, ".model")
    );
}
