use lopdf::{Dictionary, Object, Stream, StringFormat};
use metapurge::paths::DataPaths;
use metapurge::pdf::{is_metadata_key, pdf_process, Pdf};

fn name(bytes: &[u8]) -> Object {
    Object::Name(bytes.to_vec())
}

fn text(bytes: &[u8]) -> Object {
    Object::String(bytes.to_vec(), StringFormat::Literal)
}

/// A small but complete document: catalog, page tree, one page, an Info
/// dictionary with the given keys, and an XMP metadata stream.
fn build_doc(info_keys: &[(&str, Object)]) -> lopdf::Document {
    let mut doc = lopdf::Document::with_version("1.5");
    let pages_id = doc.new_object_id();
    let mut page = Dictionary::new();
    page.set("Type", name(b"Page"));
    page.set("Parent", Object::Reference(pages_id));
    let page_id = doc.add_object(Object::Dictionary(page));
    let mut pages = Dictionary::new();
    pages.set("Type", name(b"Pages"));
    pages.set("Kids", Object::Array(vec![Object::Reference(page_id)]));
    pages.set("Count", Object::Integer(1));
    doc.objects.insert(pages_id, Object::Dictionary(pages));
    let mut catalog = Dictionary::new();
    catalog.set("Type", name(b"Catalog"));
    catalog.set("Pages", Object::Reference(pages_id));
    let catalog_id = doc.add_object(Object::Dictionary(catalog));
    doc.trailer.set("Root", Object::Reference(catalog_id));
    let mut info = Dictionary::new();
    for (key, value) in info_keys {
        info.set(*key, value.clone());
    }
    let info_id = doc.add_object(Object::Dictionary(info));
    doc.trailer.set("Info", Object::Reference(info_id));
    doc
}

fn add_xmp_stream(doc: &mut lopdf::Document) -> (u32, u16) {
    let mut dict = Dictionary::new();
    dict.set("Type", name(b"Metadata"));
    dict.set("Subtype", name(b"XML"));
    let stream = Stream::new(dict, b"<x:xmpmeta>author data</x:xmpmeta>".to_vec());
    doc.add_object(Object::Stream(stream))
}

fn dict_object_with_key(doc: &lopdf::Document, key: &[u8]) -> Option<(u32, u16)> {
    for (id, object) in doc.objects.iter() {
        if let Ok(dict) = object.as_dict() {
            if dict.has(key) {
                return Some(*id);
            }
        }
    }
    None
}

#[test]
fn info_dict_of_only_metadata_keys_is_deleted() {
    let mut doc = build_doc(&[("Title", text(b"secret")), ("Author", text(b"alice"))]);
    let info_id = dict_object_with_key(&doc, b"Title").unwrap();
    pdf_process(&mut doc).unwrap();
    assert!(doc.objects.get(&info_id).is_none());
}

#[test]
fn dict_with_mixed_keys_keeps_object_and_loses_metadata_keys() {
    let mut doc = build_doc(&[("Title", text(b"secret")), ("Custom", text(b"keep"))]);
    let info_id = dict_object_with_key(&doc, b"Title").unwrap();
    pdf_process(&mut doc).unwrap();
    let info = doc.objects.get(&info_id).unwrap().as_dict().unwrap();
    assert!(!info.has(b"Title"));
    // The surviving key keeps its value unchanged.
    assert_eq!(info.get(b"Custom").unwrap(), &text(b"keep"));
}

#[test]
fn xmp_metadata_stream_is_deleted_and_other_streams_kept() {
    let mut doc = build_doc(&[("Title", text(b"secret"))]);
    let xmp_id = add_xmp_stream(&mut doc);
    let mut plain_dict = Dictionary::new();
    plain_dict.set("Length", Object::Integer(4));
    let plain_id = doc.add_object(Object::Stream(Stream::new(plain_dict, vec![1, 2, 3, 4])));
    pdf_process(&mut doc).unwrap();
    assert!(doc.objects.get(&xmp_id).is_none());
    assert!(doc.objects.get(&plain_id).is_some());
}

#[test]
fn page_tree_survives_processing() {
    let mut doc = build_doc(&[("Title", text(b"secret"))]);
    let pages_id = dict_object_with_key(&doc, b"Kids").unwrap();
    let catalog_id = dict_object_with_key(&doc, b"Pages").unwrap();
    pdf_process(&mut doc).unwrap();
    assert!(doc.objects.get(&pages_id).is_some());
    assert!(doc.objects.get(&catalog_id).is_some());
}

#[test]
fn pdf_unit_round_trip_strips_info() {
    let mut doc = build_doc(&[
        ("Title", text(b"secret")),
        ("Creator", text(b"word")),
        ("Producer", text(b"press")),
    ]);
    let mut bytes = Vec::new();
    doc.save_to(&mut bytes).unwrap();

    let mut unit = Pdf::new(DataPaths::new(String::from("a.pdf")));
    unit.load_bytes(&bytes).unwrap();
    let processed = unit.process().unwrap();
    let out = processed.save_bytes().unwrap();

    let reloaded = lopdf::Document::load_mem(&out).unwrap();
    for (_, object) in reloaded.objects.iter() {
        if let Ok(dict) = object.as_dict() {
            assert!(!dict.has(b"Title"));
            assert!(!dict.has(b"Creator"));
            assert!(!dict.has(b"Producer"));
        }
    }
}

#[test]
fn unparsable_bytes_leave_the_unit_unloaded() {
    let mut unit = Pdf::new(DataPaths::new(String::from("b.pdf")));
    let err = unit.load_bytes(&vec![1, 2, 3]).unwrap_err();
    match err {
        metapurge::errors::PurgeErr::DocumentParseError => {}
        _ => panic!("wrong error variant"),
    }
}

#[test]
fn metadata_key_set_is_exact() {
    for key in [
        "Title",
        "Author",
        "Subject",
        "Keywords",
        "Creator",
        "Producer",
        "CreationDate",
        "ModDate",
        "Comments",
        "Company",
        "SourceModified",
    ] {
        assert!(is_metadata_key(&key.as_bytes().to_vec()));
    }
    assert!(!is_metadata_key(&b"Pages".to_vec()));
    assert!(!is_metadata_key(&b"title".to_vec()));
}
