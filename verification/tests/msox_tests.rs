use std::io::Cursor;
use std::io::Read;
use std::io::Write;
use metapurge::errors::PurgeErr;
use metapurge::mso_x::{find_pattern_index, find_rells, process_archive, remove_rells,
    replace_corexml, rewrite_rels, CoreXml, MsOX};
use metapurge::paths::DataPaths;

const CORE_IN: &str = "<?xml version=\"1.0\"?><cp:coreProperties><dc:title>Secret</dc:title><dc:subject>s</dc:subject><dc:creator>Alice</dc:creator><cp:revision>4</cp:revision><dcterms:created xsi:type=\"dcterms:W3CDTF\">2020-01-01T00:00:00Z</dcterms:created><cp:category>cat</cp:category><cp:contentStatus>draft</cp:contentStatus></cp:coreProperties>";

const TEMPLATE_HEAD: &str = "<dc:title></dc:title>\n        <dc:subject></dc:subject>\n        <dc:creator></dc:creator>\n        <cp:keywords></cp:keywords>\n        <dc:description></dc:description>\n        <cp:lastModifiedBy></cp:lastModifiedBy>\n        <cp:revision></cp:revision><dcterms:created";

const TEMPLATE_TAIL: &str = "<cp:category></cp:category>\n<cp:contentStatus></cp:contentStatus>\n</cp:coreProperties>";

const RELS_TARGET: &str = "<Relationship Id=\"rId4\" Type=\"http://schemas.openxmlformats.org/officeDocument/2006/relationships/custom-properties\" Target=\"docProps/custom.xml\"/></Relationships>";

fn expected_core_out() -> String {
    let mut s = String::from("<?xml version=\"1.0\"?><cp:coreProperties>");
    s.push_str(TEMPLATE_HEAD);
    s.push_str(" xsi:type=\"dcterms:W3CDTF\">2020-01-01T00:00:00Z</dcterms:created>");
    s.push_str(TEMPLATE_TAIL);
    s
}

fn rels_in() -> String {
    let mut s = String::from("<?xml version=\"1.0\"?><Relationships>");
    s.push_str("<Relationship Id=\"rId1\" Target=\"word/document.xml\"/>");
    s.push_str(RELS_TARGET);
    s
}

fn build_archive(entries: &[(&str, &[u8])]) -> Vec<u8> {
    let mut writer = zip::ZipWriter::new(Cursor::new(Vec::new()));
    for (name, content) in entries {
        writer
            .start_file(*name, zip::write::FileOptions::default())
            .unwrap();
        writer.write_all(content).unwrap();
    }
    writer.finish().unwrap().into_inner()
}

fn read_entry(data: &[u8], name: &str) -> Option<Vec<u8>> {
    let mut archive = zip::ZipArchive::new(Cursor::new(data.to_vec())).unwrap();
    let mut found: Option<Vec<u8>> = None;
    for i in 0..archive.len() {
        let mut f = archive.by_index(i).unwrap();
        if f.name() == name {
            let mut buf = Vec::new();
            f.read_to_end(&mut buf).unwrap();
            found = Some(buf);
        }
    }
    found
}

#[test]
fn core_xml_identity_fields_are_blanked() {
    let out = replace_corexml(&CORE_IN.as_bytes().to_vec());
    assert_eq!(String::from_utf8(out).unwrap(), expected_core_out());
}

#[test]
fn core_xml_without_patterns_is_unchanged() {
    let data = b"<other>content</other>".to_vec();
    let out = replace_corexml(&data);
    assert_eq!(out, data);
}

#[test]
fn core_xml_holder_applies_rewrite() {
    let core = CoreXml::new(CORE_IN.as_bytes().to_vec());
    let out = core.purged();
    assert_eq!(String::from_utf8(out).unwrap(), expected_core_out());
}

#[test]
fn rels_with_custom_relationship_is_truncated() {
    let data = rels_in().into_bytes();
    let index = find_rells(&data).unwrap();
    let out = remove_rells(data.clone(), index);
    let mut expected = String::from("<?xml version=\"1.0\"?><Relationships>");
    expected.push_str("<Relationship Id=\"rId1\" Target=\"word/document.xml\"/>");
    expected.push_str("</Relationships>");
    assert_eq!(String::from_utf8(out).unwrap(), expected);
}

#[test]
fn rels_without_custom_relationship_is_unchanged() {
    let data = b"<Relationships><Relationship Id=\"rId1\"/></Relationships>".to_vec();
    assert!(find_rells(&data).is_none());
    let out = rewrite_rels(data.clone());
    assert_eq!(out, data);
}

#[test]
fn find_pattern_index_reports_first_match() {
    let data = b"abcabc";
    assert_eq!(find_pattern_index(data, b"ca"), Some(2));
    assert_eq!(find_pattern_index(data, b"zz"), None);
    assert_eq!(find_pattern_index(data, b"abc"), Some(0));
}

#[test]
fn archive_is_rewritten_entry_by_entry() {
    let rels = rels_in();
    let input = build_archive(&[
        ("docProps/core.xml", CORE_IN.as_bytes()),
        ("_rels/.rels", rels.as_bytes()),
        ("docProps/custom.xml", b"<Properties>x</Properties>"),
        ("word/document.xml", b"<document>body</document>"),
    ]);
    let output = process_archive(&input).unwrap();
    assert_ne!(output, input);
    let core = read_entry(&output, "docProps/core.xml").unwrap();
    assert_eq!(String::from_utf8(core).unwrap(), expected_core_out());
    let rels_out = read_entry(&output, "_rels/.rels").unwrap();
    let rels_text = String::from_utf8(rels_out).unwrap();
    assert!(rels_text.ends_with("</Relationships>"));
    assert!(!rels_text.contains("custom-properties"));
    assert!(read_entry(&output, "docProps/custom.xml").is_none());
    assert_eq!(
        read_entry(&output, "word/document.xml").unwrap(),
        b"<document>body</document>".to_vec()
    );
}

#[test]
fn archive_unit_processes_in_place() {
    let input = build_archive(&[("word/document.xml", b"<d/>")]);
    let mut unit = MsOX::new(DataPaths::new(String::from("x.docx")));
    unit.load_bytes(input.clone());
    unit.process().unwrap();
    let out = unit.into_data();
    assert_eq!(
        read_entry(&out, "word/document.xml").unwrap(),
        b"<d/>".to_vec()
    );
}

#[test]
fn non_archive_bytes_are_rejected() {
    let err = process_archive(&vec![1, 2, 3, 4]).unwrap_err();
    match err {
        PurgeErr::ArchiveError(_) => {}
        _ => panic!("wrong error variant"),
    }
}

#[test]
fn core_xml_that_is_not_utf8_fails_the_file() {
    let bad = vec![0xff, 0xfe, 0x00, 0x80];
    let input = build_archive(&[("docProps/core.xml", bad.as_slice())]);
    let err = process_archive(&input).unwrap_err();
    match err {
        PurgeErr::MalformedFormat(_) => {}
        _ => panic!("wrong error variant"),
    }
}
