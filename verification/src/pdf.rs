//! PDF engine: classifies every indirect object of the document in one
//! read-only pass — a dictionary made up entirely of metadata keys, a
//! dictionary with some metadata keys, or an XMP metadata stream — and applies
//! the classification in a second mutating pass, deleting whole objects or
//! single keys.  The two passes exist because the object table cannot be
//! iterated and mutated at the same time.

use vstd::prelude::*;
use vstd::string::StringSliceAdditionalSpecFns;
use crate::errors::PurgeErr;
use crate::mso_x::bytes_eq;
use crate::paths::DataPaths;

verus! {

#[verifier::external_type_specification]
#[verifier::external_body]
pub struct ExDocument(lopdf::Document);

#[verifier::external_type_specification]
#[verifier::external_body]
pub struct ExLopdfError(lopdf::Error);

/// The domain of the document's object table: every indirect object's id.
pub uninterp spec fn doc_ids(d: lopdf::Document) -> Set<(u32, u16)>;

/// The dictionary objects of a document: each object id whose value is a
/// dictionary, mapped to the set of that dictionary's keys.
pub uninterp spec fn doc_dicts(d: lopdf::Document) -> Map<(u32, u16), Set<Seq<u8>>>;

/// The entries of the dictionary objects: a pair of a dictionary object's id
/// and one of its keys, mapped to the serialized form of the value stored
/// under that key (serialization of an object value is deterministic, so this
/// identifies the value).
pub uninterp spec fn doc_dict_entries(d: lopdf::Document) -> Map<((u32, u16), Seq<u8>), Seq<u8>>;

/// The stream objects of a document: each stream object's id mapped to its
/// content bytes.
pub uninterp spec fn doc_streams(d: lopdf::Document) -> Map<(u32, u16), Seq<u8>>;

/// The name-valued entries of the stream objects' dictionaries: a pair of a
/// stream object's id and one of its dictionary keys, mapped to the name bytes
/// stored under that key.
pub uninterp spec fn doc_stream_names(d: lopdf::Document) -> Map<((u32, u16), Seq<u8>), Seq<u8>>;

/// Whether a byte buffer parses as a PDF document: parsing an in-memory
/// buffer depends on its bytes alone.
pub uninterp spec fn pdf_parses(data: Seq<u8>) -> bool;

/// The bytes that serializing a document produces: a function of the document
/// alone.
pub uninterp spec fn pdf_serialized(d: lopdf::Document) -> Seq<u8>;

/// Whether serializing the document succeeds.  Writing to an in-memory buffer
/// cannot fail, so the remaining failure conditions depend on the document
/// value alone.
pub uninterp spec fn pdf_serializable(d: lopdf::Document) -> bool;

/// The views of a sequence of byte vectors.
pub open spec fn key_views(v: Seq<Vec<u8>>) -> Seq<Seq<u8>> {
    v.map_values(|b: Vec<u8>| b@)
}

/// How the five models of one object table fit together: every object is one
/// enum variant, so the dictionary and stream ids are disjoint subsets of the
/// table's domain, stream-dictionary entries belong to stream objects, and a
/// dictionary entry exists exactly for each key of a dictionary object.
pub open spec fn table_shape_ok(d: lopdf::Document) -> bool {
    &&& forall|id: (u32, u16)| #[trigger]
        doc_dicts(d).dom().contains(id) ==> doc_ids(d).contains(id) && !doc_streams(
            d,
        ).dom().contains(id)
    &&& forall|id: (u32, u16)| #[trigger]
        doc_streams(d).dom().contains(id) ==> doc_ids(d).contains(id)
    &&& forall|p: ((u32, u16), Seq<u8>)| #[trigger]
        doc_stream_names(d).dom().contains(p) ==> doc_streams(d).dom().contains(p.0)
    &&& forall|p: ((u32, u16), Seq<u8>)| #[trigger]
        doc_dict_entries(d).dom().contains(p) <==> doc_dicts(d).dom().contains(p.0) && doc_dicts(
            d,
        )[p.0].contains(p.1)
}

/// Relies on lopdf's Document::load_mem: parses the buffer into an in-memory
/// object table, succeeding exactly on buffers that parse — a function of the
/// bytes alone.  A parsed object is exactly one enum variant, so the model
/// maps of the result fit together.
#[verifier::external_body]
pub(crate) fn pdf_load(data: &Vec<u8>) -> (r: Result<lopdf::Document, lopdf::Error>)
    ensures
        r is Ok <==> pdf_parses(data@),
        r matches Ok(d) ==> table_shape_ok(d),
{
    lopdf::Document::load_mem(data.as_slice())
}

/// Relies on lopdf's Document::save_to: serializes the document into a
/// buffer, a function of the document alone (no clock or randomness), and
/// succeeds or fails depending on the document alone, since writing to an
/// in-memory buffer cannot fail.
#[verifier::external_body]
pub(crate) fn pdf_save(d: &mut lopdf::Document) -> (r: Result<Vec<u8>, lopdf::Error>)
    ensures
        r is Ok <==> pdf_serializable(*old(d)),
        r matches Ok(b) ==> b@ == pdf_serialized(*old(d)),
{
    let mut out: Vec<u8> = Vec::new();
    d.save_to(&mut out)?;
    Ok(out)
}

/// Relies on the document's object table (a map keyed by object id): its key
/// list is exactly the table's domain, without duplicates.
#[verifier::external_body]
pub(crate) fn doc_object_ids(d: &lopdf::Document) -> (r: Vec<(u32, u16)>)
    ensures
        r@.no_duplicates(),
        forall|id: (u32, u16)| r@.contains(id) <==> doc_ids(*d).contains(id),
{
    d.objects.keys().copied().collect()
}

/// Relies on the object table lookup and Object::as_dict: yields the keys of
/// the dictionary stored under `id`, exactly when `id` names a dictionary
/// object; the keys of one dictionary are distinct.
#[verifier::external_body]
pub(crate) fn dict_keys(d: &lopdf::Document, id: (u32, u16)) -> (r: Option<Vec<Vec<u8>>>)
    ensures
        r is Some <==> doc_dicts(*d).dom().contains(id),
        r matches Some(v) ==> {
            &&& key_views(v@).no_duplicates()
            &&& forall|k: Seq<u8>| #[trigger]
                key_views(v@).contains(k) ==> doc_dicts(*d)[id].contains(k)
            &&& forall|k: Seq<u8>| #[trigger]
                doc_dicts(*d)[id].contains(k) ==> key_views(v@).contains(k)
        },
{
    d.objects.get(&id).and_then(|o| o.as_dict().ok()).map(
        |dict| dict.iter().map(|(k, _)| k.clone()).collect(),
    )
}

/// Relies on the object table lookup, Object::as_stream, Dictionary::get and
/// Object::as_name: yields the name bytes stored under `key` in the stream
/// object `id`'s dictionary, exactly when such an entry exists.
#[verifier::external_body]
pub(crate) fn stream_name_value(d: &lopdf::Document, id: (u32, u16), key: &[u8]) -> (r: Option<
    Vec<u8>,
>)
    ensures
        r is Some <==> doc_stream_names(*d).dom().contains((id, key@)),
        r matches Some(v) ==> v@ == doc_stream_names(*d)[(id, key@)],
{
    d.objects.get(&id).and_then(|o| o.as_stream().ok()).and_then(|s| s.dict.get(key).ok())
        .and_then(|v| v.as_name().ok()).map(|n| n.to_vec())
}

/// Relies on the object table's remove: the object under `id` is gone from
/// the table and from every model, and everything else is untouched.
#[verifier::external_body]
pub(crate) fn remove_object(d: &mut lopdf::Document, id: (u32, u16))
    ensures
        doc_ids(*final(d)) == doc_ids(*old(d)).remove(id),
        doc_dicts(*final(d)) == doc_dicts(*old(d)).remove(id),
        doc_dict_entries(*final(d)) == doc_dict_entries(*old(d)).remove_keys(
            Set::new(|p: ((u32, u16), Seq<u8>)| p.0 == id),
        ),
        doc_streams(*final(d)) == doc_streams(*old(d)).remove(id),
        doc_stream_names(*final(d)) == doc_stream_names(*old(d)).remove_keys(
            Set::new(|p: ((u32, u16), Seq<u8>)| p.0 == id),
        ),
{
    d.objects.remove(&id);
}

/// Relies on the object table lookup, Object::as_dict_mut and
/// Dictionary::remove: when `id` names a dictionary object, `key` and its
/// entry leave that dictionary; nothing else changes.
#[verifier::external_body]
pub(crate) fn dict_remove_key(d: &mut lopdf::Document, id: (u32, u16), key: &Vec<u8>)
    ensures
        doc_ids(*final(d)) == doc_ids(*old(d)),
        doc_dicts(*final(d)) == if doc_dicts(*old(d)).dom().contains(id) {
            doc_dicts(*old(d)).insert(id, doc_dicts(*old(d))[id].remove(key@))
        } else {
            doc_dicts(*old(d))
        },
        doc_dict_entries(*final(d)) == if doc_dicts(*old(d)).dom().contains(id) {
            doc_dict_entries(*old(d)).remove((id, key@))
        } else {
            doc_dict_entries(*old(d))
        },
        doc_streams(*final(d)) == doc_streams(*old(d)),
        doc_stream_names(*final(d)) == doc_stream_names(*old(d)),
{
    if let Some(o) = d.objects.get_mut(&id) {
        if let Ok(dict) = o.as_dict_mut() {
            dict.remove(key.as_slice());
        }
    }
}

/// The fixed set of dictionary keys that carry document metadata.
pub open spec fn is_meta_key(k: Seq<u8>) -> bool {
    ||| k == "Title".spec_bytes()
    ||| k == "Author".spec_bytes()
    ||| k == "Subject".spec_bytes()
    ||| k == "Keywords".spec_bytes()
    ||| k == "Creator".spec_bytes()
    ||| k == "Producer".spec_bytes()
    ||| k == "CreationDate".spec_bytes()
    ||| k == "ModDate".spec_bytes()
    ||| k == "Comments".spec_bytes()
    ||| k == "Company".spec_bytes()
    ||| k == "SourceModified".spec_bytes()
}

/// Whether a dictionary key names document metadata.
pub fn is_metadata_key(key: &Vec<u8>) -> (r: bool)
    ensures
        r == is_meta_key(key@),
{
    bytes_eq(key.as_slice(), "Title".as_bytes()) || bytes_eq(key.as_slice(), "Author".as_bytes())
        || bytes_eq(key.as_slice(), "Subject".as_bytes()) || bytes_eq(
        key.as_slice(),
        "Keywords".as_bytes(),
    ) || bytes_eq(key.as_slice(), "Creator".as_bytes()) || bytes_eq(
        key.as_slice(),
        "Producer".as_bytes(),
    ) || bytes_eq(key.as_slice(), "CreationDate".as_bytes()) || bytes_eq(
        key.as_slice(),
        "ModDate".as_bytes(),
    ) || bytes_eq(key.as_slice(), "Comments".as_bytes()) || bytes_eq(
        key.as_slice(),
        "Company".as_bytes(),
    ) || bytes_eq(key.as_slice(), "SourceModified".as_bytes())
}

/// Every key of the set is a metadata key.
pub open spec fn all_meta(ks: Set<Seq<u8>>) -> bool {
    forall|k: Seq<u8>| ks.contains(k) ==> is_meta_key(k)
}

/// Some key of the set is a metadata key.
pub open spec fn some_meta(ks: Set<Seq<u8>>) -> bool {
    exists|k: Seq<u8>| ks.contains(k) && is_meta_key(k)
}

/// A dictionary whose keys are all metadata keys, and at least one, is
/// deleted as a whole object.
pub open spec fn delete_whole(ks: Set<Seq<u8>>) -> bool {
    (exists|k: Seq<u8>| ks.contains(k)) && all_meta(ks)
}

/// The keys a kept dictionary retains: its non-metadata keys.
pub open spec fn strip_keys(ks: Set<Seq<u8>>) -> Set<Seq<u8>> {
    ks.filter(|k: Seq<u8>| !is_meta_key(k))
}

/// A stream whose dictionary names `Subtype` `XML` and `Type` `Metadata` is an
/// XMP metadata packet.
pub open spec fn is_xmp(s: Map<((u32, u16), Seq<u8>), Seq<u8>>, id: (u32, u16)) -> bool {
    &&& s.dom().contains((id, "Subtype".spec_bytes())) && s[(id, "Subtype".spec_bytes())]
        == "XML".spec_bytes()
    &&& s.dom().contains((id, "Type".spec_bytes())) && s[(id, "Type".spec_bytes())]
        == "Metadata".spec_bytes()
}

/// One indirect object marked for mutation: `Empty` deletes the whole object,
/// `Dict` deletes only the listed keys, `MetadataStream` deletes an XMP
/// metadata stream object.
pub enum PdfDirtyObject {
    Empty((u32, u16)),
    Dict((u32, u16), Vec<Vec<u8>>),
    MetadataStream((u32, u16)),
}

/// The object a mark targets.
pub open spec fn target(o: PdfDirtyObject) -> (u32, u16) {
    match o {
        PdfDirtyObject::Empty(id) => id,
        PdfDirtyObject::Dict(id, _) => id,
        PdfDirtyObject::MetadataStream(id) => id,
    }
}

/// A mark correctly describes the document it was computed from.
pub open spec fn mark_wf(o: PdfDirtyObject, d: lopdf::Document) -> bool {
    match o {
        PdfDirtyObject::Empty(id) => doc_dicts(d).dom().contains(id) && delete_whole(
            doc_dicts(d)[id],
        ),
        PdfDirtyObject::Dict(id, ks) => {
            &&& doc_dicts(d).dom().contains(id)
            &&& !delete_whole(doc_dicts(d)[id])
            &&& key_views(ks@).len() > 0
            &&& key_views(ks@).no_duplicates()
            &&& forall|k: Seq<u8>| #[trigger]
                key_views(ks@).contains(k) ==> doc_dicts(d)[id].contains(k) && is_meta_key(k)
            &&& forall|k: Seq<u8>| #[trigger]
                doc_dicts(d)[id].contains(k) && is_meta_key(k) ==> key_views(ks@).contains(k)
        },
        PdfDirtyObject::MetadataStream(id) => is_xmp(doc_stream_names(d), id) && !doc_dicts(
            d,
        ).dom().contains(id),
    }
}

/// Some mark of the list targets `id`.
pub open spec fn sched_in(ds: Seq<PdfDirtyObject>, id: (u32, u16)) -> bool {
    exists|t: int| 0 <= t < ds.len() && target(#[trigger] ds[t]) == id
}

/// What holds of the document once a mark has been applied: `d0` is the
/// document the marks were computed from, `d1` the current one.
pub open spec fn mark_done(o: PdfDirtyObject, d0: lopdf::Document, d1: lopdf::Document) -> bool {
    match o {
        PdfDirtyObject::Empty(id) => {
            &&& !doc_ids(d1).contains(id)
            &&& !doc_dicts(d1).dom().contains(id)
            &&& forall|p: ((u32, u16), Seq<u8>)| #[trigger]
                doc_dict_entries(d1).dom().contains(p) ==> p.0 != id
        },
        PdfDirtyObject::Dict(id, _) => {
            &&& doc_ids(d1).contains(id)
            &&& doc_dicts(d1).dom().contains(id)
            &&& doc_dicts(d1)[id] == strip_keys(doc_dicts(d0)[id])
            &&& forall|p: ((u32, u16), Seq<u8>)|
                p.0 == id ==> ((#[trigger] doc_dict_entries(d1).dom().contains(p) <==> (
                doc_dict_entries(d0).dom().contains(p) && !is_meta_key(p.1))) && (doc_dict_entries(
                    d1,
                ).dom().contains(p) ==> doc_dict_entries(d1)[p] == doc_dict_entries(d0)[p]))
        },
        PdfDirtyObject::MetadataStream(id) => {
            &&& !doc_ids(d1).contains(id)
            &&& !doc_streams(d1).dom().contains(id)
            &&& forall|p: ((u32, u16), Seq<u8>)| #[trigger]
                doc_stream_names(d1).dom().contains(p) ==> p.0 != id
        },
    }
}

/// The current document still agrees with the original one at `id`, in every
/// model.
pub open spec fn pristine_at(id: (u32, u16), d0: lopdf::Document, d1: lopdf::Document) -> bool {
    &&& doc_ids(d1).contains(id) <==> doc_ids(d0).contains(id)
    &&& (doc_dicts(d1).dom().contains(id) <==> doc_dicts(d0).dom().contains(id))
    &&& (doc_dicts(d0).dom().contains(id) ==> doc_dicts(d1)[id] == doc_dicts(d0)[id])
    &&& (doc_streams(d1).dom().contains(id) <==> doc_streams(d0).dom().contains(id))
    &&& (doc_streams(d0).dom().contains(id) ==> doc_streams(d1)[id] == doc_streams(d0)[id])
    &&& forall|p: ((u32, u16), Seq<u8>)|
        p.0 == id ==> ((#[trigger] doc_stream_names(d1).dom().contains(p) <==> doc_stream_names(
            d0,
        ).dom().contains(p)) && (doc_stream_names(d0).dom().contains(p) ==> doc_stream_names(
            d1,
        )[p] == doc_stream_names(d0)[p]))
    &&& forall|p: ((u32, u16), Seq<u8>)|
        p.0 == id ==> ((#[trigger] doc_dict_entries(d1).dom().contains(p) <==> doc_dict_entries(
            d0,
        ).dom().contains(p)) && (doc_dict_entries(d0).dom().contains(p) ==> doc_dict_entries(
            d1,
        )[p] == doc_dict_entries(d0)[p]))
}

/// The current document only ever lost material: no object id, dictionary,
/// dictionary entry, stream or stream-dictionary name was added or altered.
pub open spec fn only_shrunk(d0: lopdf::Document, d1: lopdf::Document) -> bool {
    &&& forall|id: (u32, u16)| #[trigger] doc_ids(d1).contains(id) ==> doc_ids(d0).contains(id)
    &&& forall|id: (u32, u16)| #[trigger]
        doc_dicts(d1).dom().contains(id) ==> doc_dicts(d0).dom().contains(id)
    &&& forall|p: ((u32, u16), Seq<u8>)| #[trigger]
        doc_dict_entries(d1).dom().contains(p) ==> doc_dict_entries(d0).dom().contains(p)
            && doc_dict_entries(d1)[p] == doc_dict_entries(d0)[p]
    &&& forall|id: (u32, u16)| #[trigger]
        doc_streams(d1).dom().contains(id) ==> doc_streams(d0).dom().contains(id) && doc_streams(
            d1,
        )[id] == doc_streams(d0)[id]
    &&& forall|p: ((u32, u16), Seq<u8>)| #[trigger]
        doc_stream_names(d1).dom().contains(p) ==> doc_stream_names(d0).dom().contains(p)
            && doc_stream_names(d1)[p] == doc_stream_names(d0)[p]
}

/// Splits a dictionary's key list into its metadata keys, in order.
fn split_meta(keys: &Vec<Vec<u8>>) -> (dirty: Vec<Vec<u8>>)
    ensures
        forall|k: Seq<u8>| #[trigger]
            key_views(dirty@).contains(k) ==> key_views(keys@).contains(k) && is_meta_key(k),
        forall|k: Seq<u8>| #[trigger]
            key_views(keys@).contains(k) && is_meta_key(k) ==> key_views(dirty@).contains(k),
        (dirty@.len() == keys@.len()) <==> (forall|j: int|
            0 <= j < keys@.len() ==> is_meta_key(#[trigger] key_views(keys@)[j])),
        (dirty@.len() == 0) <==> (forall|j: int|
            0 <= j < keys@.len() ==> !is_meta_key(#[trigger] key_views(keys@)[j])),
        key_views(keys@).no_duplicates() ==> key_views(dirty@).no_duplicates(),
{
    let mut dirty: Vec<Vec<u8>> = Vec::new();
    let mut i: usize = 0;
    while i < keys.len()
        invariant
            i <= keys@.len(),
            dirty@.len() <= i,
            forall|j: int|
                0 <= j < dirty@.len() ==> is_meta_key(#[trigger] key_views(dirty@)[j]) && (
                exists|m: int| 0 <= m < i && key_views(keys@)[m] == key_views(dirty@)[j]),
            forall|m: int|
                0 <= m < i && is_meta_key(#[trigger] key_views(keys@)[m]) ==> key_views(
                    dirty@,
                ).contains(key_views(keys@)[m]),
            (dirty@.len() == i) <==> (forall|m: int|
                0 <= m < i ==> is_meta_key(#[trigger] key_views(keys@)[m])),
            (dirty@.len() == 0) <==> (forall|m: int|
                0 <= m < i ==> !is_meta_key(#[trigger] key_views(keys@)[m])),
            key_views(keys@).no_duplicates() ==> key_views(dirty@).no_duplicates(),
        decreases keys@.len() - i,
    {
        let ghost dirty0 = dirty@;
        let meta = is_metadata_key(&keys[i]);
        proof {
            assert(key_views(keys@)[i as int] == keys@[i as int]@);
        }
        if meta {
            proof {
                if key_views(keys@).no_duplicates() && key_views(dirty0).contains(
                    keys@[i as int]@,
                ) {
                    let j = choose|j: int|
                        0 <= j < dirty0.len() && key_views(dirty0)[j] == keys@[i as int]@;
                    let m = choose|m: int|
                        0 <= m < i && key_views(keys@)[m] == key_views(dirty0)[j];
                    assert(key_views(keys@)[m] == key_views(keys@)[i as int]);
                    assert(false);
                }
            }
            let copy = vstd::slice::slice_to_vec(keys[i].as_slice());
            dirty.push(copy);
            proof {
                assert(key_views(dirty@) =~= key_views(dirty0).push(keys@[i as int]@));
                assert(key_views(dirty@)[dirty0.len() as int] == keys@[i as int]@);
                assert forall|m: int|
                    0 <= m < i + 1 && is_meta_key(#[trigger] key_views(keys@)[m]) implies
                    key_views(dirty@).contains(key_views(keys@)[m]) by {
                    if m < i {
                        let j = choose|j: int|
                            0 <= j < key_views(dirty0).len() && key_views(dirty0)[j] == key_views(
                                keys@,
                            )[m];
                        assert(key_views(dirty@)[j] == key_views(keys@)[m]);
                    } else {
                        assert(key_views(dirty@)[dirty0.len() as int] == key_views(keys@)[m]);
                    }
                }
            }
        } else {
            proof {
                assert(!is_meta_key(key_views(keys@)[i as int]));
            }
        }
        i = i + 1;
    }
    proof {
        assert forall|k: Seq<u8>| #[trigger]
            key_views(dirty@).contains(k) implies key_views(keys@).contains(k) && is_meta_key(
            k,
        ) by {
            let j = choose|j: int| 0 <= j < key_views(dirty@).len() && key_views(dirty@)[j] == k;
            let m = choose|m: int|
                0 <= m < keys@.len() && key_views(keys@)[m] == key_views(dirty@)[j];
            assert(key_views(keys@).contains(key_views(keys@)[m]));
        }
        assert forall|k: Seq<u8>| #[trigger]
            key_views(keys@).contains(k) && is_meta_key(k) implies key_views(dirty@).contains(
            k,
        ) by {
            let m = choose|m: int| 0 <= m < key_views(keys@).len() && key_views(keys@)[m] == k;
            assert(key_views(dirty@).contains(key_views(keys@)[m]));
        }
    }
    dirty
}


/// The read-only classification pass: every object of the document is looked
/// at once, and each dictionary made of metadata keys, dictionary holding
/// some metadata keys, or XMP metadata stream yields one mark.
fn classify_objects(d: &lopdf::Document) -> (dirty: Vec<PdfDirtyObject>)
    requires
        table_shape_ok(*d),
    ensures
        forall|t: int| #![trigger dirty@[t]]
            0 <= t < dirty@.len() ==> mark_wf(dirty@[t], *d),
        forall|t1: int, t2: int|
            0 <= t1 < t2 < dirty@.len() ==> target(dirty@[t1]) != target(dirty@[t2]),
        forall|id: (u32, u16)| #[trigger]
            doc_dicts(*d).dom().contains(id) && delete_whole(doc_dicts(*d)[id]) ==> sched_in(
                dirty@,
                id,
            ),
        forall|id: (u32, u16)| #[trigger]
            doc_dicts(*d).dom().contains(id) && some_meta(doc_dicts(*d)[id]) && !delete_whole(
                doc_dicts(*d)[id],
            ) ==> sched_in(dirty@, id),
        forall|id: (u32, u16)| is_xmp(doc_stream_names(*d), id) ==> sched_in(dirty@, id),
{
    let ids = doc_object_ids(d);
    let mut dirty: Vec<PdfDirtyObject> = Vec::new();
    let mut i: usize = 0;
    while i < ids.len()
        invariant
            table_shape_ok(*d),
            i <= ids@.len(),
            ids@.no_duplicates(),
            forall|id: (u32, u16)| ids@.contains(id) <==> doc_ids(*d).contains(id),
            forall|t: int| #![trigger dirty@[t]]
                0 <= t < dirty@.len() ==> mark_wf(dirty@[t], *d),
            forall|t: int| #![trigger dirty@[t]]
                0 <= t < dirty@.len() ==> ids@.take(i as int).contains(target(dirty@[t])),
            forall|t1: int, t2: int|
                0 <= t1 < t2 < dirty@.len() ==> target(dirty@[t1]) != target(dirty@[t2]),
            forall|m: int|
                0 <= m < i ==> {
                    let id = #[trigger] ids@[m];
                    &&& (doc_dicts(*d).dom().contains(id) && delete_whole(doc_dicts(*d)[id])
                        ==> sched_in(dirty@, id))
                    &&& (doc_dicts(*d).dom().contains(id) && some_meta(doc_dicts(*d)[id])
                        && !delete_whole(doc_dicts(*d)[id]) ==> sched_in(dirty@, id))
                    &&& (is_xmp(doc_stream_names(*d), id) ==> sched_in(dirty@, id))
                },
        decreases ids@.len() - i,
    {
        let id = ids[i];
        proof {
            if ids@.take(i as int).contains(id) {
                let m = choose|m: int| 0 <= m < i && ids@.take(i as int)[m] == id;
                assert(ids@[m] == ids@[i as int]);
                assert(false);
            }
        }
        let ghost dirty0 = dirty@;
        match dict_keys(d, id) {
            Option::Some(keys) => {
                proof {
                    if doc_stream_names(*d).dom().contains((id, "Subtype".spec_bytes())) {
                        assert(doc_streams(*d).dom().contains(id));
                        assert(false);
                    }
                    assert(!is_xmp(doc_stream_names(*d), id));
                }
                if keys.len() > 0 {
                    let dirty_keys = split_meta(&keys);
                    if dirty_keys.len() == keys.len() {
                        proof {
                            assert(key_views(keys@)[0] == keys@[0]@);
                            assert(key_views(keys@).contains(key_views(keys@)[0]));
                            assert(doc_dicts(*d)[id].contains(key_views(keys@)[0]));
                            assert forall|k: Seq<u8>| #[trigger]
                                doc_dicts(*d)[id].contains(k) implies is_meta_key(k) by {
                                assert(key_views(keys@).contains(k));
                                let j = choose|j: int|
                                    0 <= j < key_views(keys@).len() && key_views(keys@)[j] == k;
                                assert(is_meta_key(key_views(keys@)[j]));
                            }
                            assert(delete_whole(doc_dicts(*d)[id]));
                        }
                        dirty.push(PdfDirtyObject::Empty(id));
                        proof {
                            assert(target(dirty@[dirty0.len() as int]) == id);
                        }
                    } else if dirty_keys.len() != 0 {
                        proof {
                            assert(key_views(keys@).len() == keys@.len());
                            assert(!(forall|j: int|
                                0 <= j < keys@.len() ==> is_meta_key(
                                    #[trigger] key_views(keys@)[j],
                                )));
                            let j = choose|j: int|
                                0 <= j < keys@.len() && !is_meta_key(#[trigger] key_views(keys@)[j]);
                            assert(key_views(keys@).contains(key_views(keys@)[j]));
                            assert(doc_dicts(*d)[id].contains(key_views(keys@)[j]));
                            assert(!all_meta(doc_dicts(*d)[id]));
                            assert(!delete_whole(doc_dicts(*d)[id]));
                            assert(key_views(dirty_keys@).len() == dirty_keys@.len());
                            assert(mark_wf(PdfDirtyObject::Dict(id, dirty_keys), *d));
                        }
                        dirty.push(PdfDirtyObject::Dict(id, dirty_keys));
                        proof {
                            assert(target(dirty@[dirty0.len() as int]) == id);
                        }
                    } else {
                        proof {
                            assert(forall|m: int|
                                0 <= m < keys@.len() ==> !is_meta_key(
                                    #[trigger] key_views(keys@)[m],
                                ));
                            if some_meta(doc_dicts(*d)[id]) {
                                let k = choose|k: Seq<u8>|
                                    doc_dicts(*d)[id].contains(k) && is_meta_key(k);
                                assert(key_views(keys@).contains(k));
                                let j = choose|j: int|
                                    0 <= j < key_views(keys@).len() && key_views(keys@)[j] == k;
                                assert(false);
                            }
                            assert(!delete_whole(doc_dicts(*d)[id]));
                        }
                    }
                } else {
                    proof {
                        assert(key_views(keys@).len() == 0);
                        if some_meta(doc_dicts(*d)[id]) {
                            let k = choose|k: Seq<u8>|
                                doc_dicts(*d)[id].contains(k) && is_meta_key(k);
                            assert(key_views(keys@).contains(k));
                            assert(false);
                        }
                        if delete_whole(doc_dicts(*d)[id]) {
                            let k = choose|k: Seq<u8>| doc_dicts(*d)[id].contains(k);
                            assert(key_views(keys@).contains(k));
                            assert(false);
                        }
                    }
                }
            },
            Option::None => {
                let subtype = stream_name_value(d, id, "Subtype".as_bytes());
                let stream_kind = stream_name_value(d, id, "Type".as_bytes());
                let is_meta_stream = match (&subtype, &stream_kind) {
                    (Option::Some(s), Option::Some(t)) => bytes_eq(s.as_slice(), "XML".as_bytes())
                        && bytes_eq(t.as_slice(), "Metadata".as_bytes()),
                    _ => false,
                };
                if is_meta_stream {
                    proof {
                        assert(is_xmp(doc_stream_names(*d), id));
                    }
                    dirty.push(PdfDirtyObject::MetadataStream(id));
                    proof {
                        assert(target(dirty@[dirty0.len() as int]) == id);
                    }
                } else {
                    proof {
                        assert(!is_xmp(doc_stream_names(*d), id));
                    }
                }
            },
        }
        proof {
            assert(forall|m: int|
                0 <= m < i ==> ids@.take(i as int)[m] == #[trigger] ids@.take(i + 1 as int)[m]);
            assert forall|x: (u32, u16)| #[trigger]
                ids@.take(i as int).contains(x) implies ids@.take(i + 1 as int).contains(x) by {
                let m = choose|m: int| 0 <= m < i && ids@.take(i as int)[m] == x;
                assert(ids@.take(i + 1 as int)[m] == x);
            }
            assert(ids@.take(i + 1 as int)[i as int] == ids@[i as int]);
            assert(ids@.take(i + 1 as int).contains(id));
            assert(forall|t: int| 0 <= t < dirty0.len() ==> dirty0[t] == #[trigger] dirty@[t]);
            assert forall|id2: (u32, u16)| sched_in(dirty0, id2) implies sched_in(
                dirty@,
                id2,
            ) by {
                let t = choose|t: int| 0 <= t < dirty0.len() && target(#[trigger] dirty0[t]) == id2;
                assert(target(dirty@[t]) == id2);
            }
            assert(sched_in(dirty@, id) || dirty@ == dirty0);
        }
        i = i + 1;
    }
    proof {
        assert(ids@.take(ids@.len() as int) =~= ids@);
        assert forall|id: (u32, u16)| #[trigger]
            ids@.contains(id) implies exists|m: int|
            0 <= m < ids@.len() && #[trigger] ids@[m] == id by {
            let m = choose|m: int| 0 <= m < ids@.len() && ids@[m] == id;
            assert(ids@[m] == id);
        }
        assert forall|id: (u32, u16)| #[trigger]
            doc_dicts(*d).dom().contains(id) && delete_whole(doc_dicts(*d)[id]) implies sched_in(
            dirty@,
            id,
        ) by {
            assert(doc_ids(*d).contains(id));
            assert(ids@.contains(id));
        }
        assert forall|id: (u32, u16)| #[trigger]
            doc_dicts(*d).dom().contains(id) && some_meta(doc_dicts(*d)[id]) && !delete_whole(
            doc_dicts(*d)[id],
        ) implies sched_in(dirty@, id) by {
            assert(doc_ids(*d).contains(id));
            assert(ids@.contains(id));
        }
        assert forall|id: (u32, u16)|
            is_xmp(doc_stream_names(*d), id) implies sched_in(dirty@, id) by {
            assert(doc_stream_names(*d).dom().contains((id, "Subtype".spec_bytes())));
            assert(doc_streams(*d).dom().contains(id));
            assert(doc_ids(*d).contains(id));
            assert(ids@.contains(id));
        }
    }
    dirty
}

/// The mutating pass: applies every mark to the document, one object or one
/// key at a time; objects without a mark are left exactly as they were, and
/// nothing is ever added.
fn apply_marks(d: &mut lopdf::Document, dirty: &Vec<PdfDirtyObject>)
    requires
        table_shape_ok(*old(d)),
        forall|t: int| #![trigger dirty@[t]]
            0 <= t < dirty@.len() ==> mark_wf(dirty@[t], *old(d)),
        forall|t1: int, t2: int|
            0 <= t1 < t2 < dirty@.len() ==> target(dirty@[t1]) != target(dirty@[t2]),
    ensures
        forall|t: int| #![trigger dirty@[t]]
            0 <= t < dirty@.len() ==> mark_done(dirty@[t], *old(d), *final(d)),
        forall|id: (u32, u16)| !sched_in(dirty@, id) ==> pristine_at(id, *old(d), *final(d)),
        only_shrunk(*old(d), *final(d)),
{
    let ghost d0 = *old(d);
    let mut j: usize = 0;
    while j < dirty.len()
        invariant
            table_shape_ok(d0),
            j <= dirty@.len(),
            forall|t: int| #![trigger dirty@[t]]
                0 <= t < dirty@.len() ==> mark_wf(dirty@[t], d0),
            forall|t1: int, t2: int|
                0 <= t1 < t2 < dirty@.len() ==> target(dirty@[t1]) != target(dirty@[t2]),
            forall|t: int| #![trigger dirty@[t]]
                0 <= t < j ==> mark_done(dirty@[t], d0, *d),
            forall|id: (u32, u16)|
                !sched_in(dirty@.take(j as int), id) ==> pristine_at(id, d0, *d),
            only_shrunk(d0, *d),
        decreases dirty@.len() - j,
    {
        let ghost pre = *d;
        let mark = &dirty[j];
        let ghost id_j = target(dirty@[j as int]);
        proof {
            if sched_in(dirty@.take(j as int), id_j) {
                let t = choose|t: int|
                    0 <= t < j && target(#[trigger] dirty@.take(j as int)[t]) == id_j;
                assert(target(dirty@[t]) == target(dirty@[j as int]));
                assert(false);
            }
            assert(pristine_at(id_j, d0, pre));
        }
        match mark {
            PdfDirtyObject::Empty(id) => {
                remove_object(d, *id);
            },
            PdfDirtyObject::MetadataStream(id) => {
                remove_object(d, *id);
            },
            PdfDirtyObject::Dict(id, ks) => {
                let ghost entry_keys = doc_dicts(d0)[*id];
                let mut u: usize = 0;
                while u < ks.len()
                    invariant
                        u <= ks@.len(),
                        dirty@[j as int] == PdfDirtyObject::Dict(*id, *ks),
                        0 <= j < dirty@.len(),
                        table_shape_ok(d0),
                        mark_wf(dirty@[j as int], d0),
                        entry_keys == doc_dicts(d0)[*id],
                        doc_dicts(d0).dom().contains(*id),
                        pristine_at(*id, d0, pre),
                        doc_ids(*d) == doc_ids(pre),
                        doc_streams(*d) == doc_streams(pre),
                        doc_stream_names(*d) == doc_stream_names(pre),
                        doc_dicts(*d).dom().contains(*id),
                        forall|id2: (u32, u16)|
                            id2 != *id ==> ((#[trigger] doc_dicts(*d).dom().contains(id2)
                                <==> doc_dicts(pre).dom().contains(id2)) && (doc_dicts(
                                pre,
                            ).dom().contains(id2) ==> doc_dicts(*d)[id2] == doc_dicts(pre)[id2])),
                        doc_dicts(pre).dom().contains(*id) && doc_dicts(pre)[*id] == entry_keys,
                        forall|k: Seq<u8>| #[trigger]
                            doc_dicts(*d)[*id].contains(k) <==> (entry_keys.contains(k)
                                && !key_views(ks@).take(u as int).contains(k)),
                        forall|p: ((u32, u16), Seq<u8>)|
                            p.0 != *id ==> ((#[trigger] doc_dict_entries(*d).dom().contains(p)
                                <==> doc_dict_entries(pre).dom().contains(p)) && (doc_dict_entries(
                                pre,
                            ).dom().contains(p) ==> doc_dict_entries(*d)[p] == doc_dict_entries(
                                pre,
                            )[p])),
                        forall|p: ((u32, u16), Seq<u8>)|
                            p.0 == *id ==> ((#[trigger] doc_dict_entries(*d).dom().contains(p)
                                <==> (doc_dict_entries(pre).dom().contains(p) && !key_views(
                                ks@,
                            ).take(u as int).contains(p.1))) && (doc_dict_entries(
                                *d,
                            ).dom().contains(p) ==> doc_dict_entries(*d)[p] == doc_dict_entries(
                                pre,
                            )[p])),
                    decreases ks@.len() - u,
                {
                    let key = &ks[u];
                    dict_remove_key(d, *id, key);
                    proof {
                        assert(key_views(ks@)[u as int] == ks@[u as int]@);
                        assert(forall|m: int|
                            0 <= m < u ==> key_views(ks@).take(u as int)[m] == #[trigger] key_views(
                                ks@,
                            ).take(u + 1 as int)[m]);
                        assert(key_views(ks@).take(u + 1 as int)[u as int] == ks@[u as int]@);
                        assert forall|k: Seq<u8>| #[trigger]
                            key_views(ks@).take(u + 1 as int).contains(k) implies (key_views(
                            ks@,
                        ).take(u as int).contains(k) || k == ks@[u as int]@) by {
                            let m = choose|m: int|
                                0 <= m < u + 1 && #[trigger] key_views(ks@).take(u + 1 as int)[m]
                                    == k;
                            if m < u {
                                assert(key_views(ks@).take(u as int)[m] == k);
                            }
                        }
                        assert forall|k: Seq<u8>| #[trigger]
                            key_views(ks@).take(u as int).contains(k) implies key_views(ks@).take(
                            u + 1 as int,
                        ).contains(k) by {
                            let m = choose|m: int|
                                0 <= m < u && key_views(ks@).take(u as int)[m] == k;
                            assert(key_views(ks@).take(u + 1 as int)[m] == k);
                        }
                        assert(forall|p: ((u32, u16), Seq<u8>)|
                            p == (*id, ks@[u as int]@) <==> (p.0 == *id && p.1 == ks@[u as int]@));
                    }
                    u = u + 1;
                }
                proof {
                    assert(key_views(ks@).take(ks@.len() as int) =~= key_views(ks@));
                    assert(doc_dicts(*d)[*id] =~= strip_keys(entry_keys)) by {
                        assert forall|k: Seq<u8>| #[trigger]
                            entry_keys.contains(k) && !key_views(ks@).contains(k) implies
                            !is_meta_key(k) by {
                            if is_meta_key(k) {
                                assert(key_views(ks@).contains(k));
                            }
                        }
                    }
                    assert forall|p: ((u32, u16), Seq<u8>)| p.0 == *id implies ((
                    #[trigger] doc_dict_entries(*d).dom().contains(p) <==> (doc_dict_entries(
                        d0,
                    ).dom().contains(p) && !is_meta_key(p.1))) && (doc_dict_entries(
                        *d,
                    ).dom().contains(p) ==> doc_dict_entries(*d)[p] == doc_dict_entries(
                        d0,
                    )[p])) by {
                        if doc_dict_entries(d0).dom().contains(p) {
                            assert(doc_dicts(d0)[p.0].contains(p.1));
                            assert(key_views(ks@).contains(p.1) <==> is_meta_key(p.1));
                        }
                    }
                    assert(mark_done(dirty@[j as int], d0, *d));
                }
            },
        }
        proof {
            assert(forall|m: int|
                0 <= m < j ==> dirty@.take(j as int)[m] == #[trigger] dirty@.take(
                    j + 1 as int,
                )[m]);
            assert forall|id2: (u32, u16)|
                !sched_in(dirty@.take(j + 1 as int), id2) implies pristine_at(id2, d0, *d) by {
                if sched_in(dirty@.take(j as int), id2) {
                    let t = choose|t: int|
                        0 <= t < j && target(#[trigger] dirty@.take(j as int)[t]) == id2;
                    assert(target(dirty@.take(j + 1 as int)[t]) == id2);
                    assert(false);
                }
                assert(target(dirty@.take(j + 1 as int)[j as int]) == id_j);
                assert(id2 != id_j);
                assert(pristine_at(id2, d0, pre));
                assert(doc_ids(*d).contains(id2) <==> doc_ids(d0).contains(id2));
                assert(doc_dicts(*d).dom().contains(id2) <==> doc_dicts(d0).dom().contains(id2));
                assert(doc_dicts(d0).dom().contains(id2) ==> doc_dicts(*d)[id2] == doc_dicts(
                    d0,
                )[id2]);
                assert(doc_streams(*d).dom().contains(id2) <==> doc_streams(d0).dom().contains(
                    id2,
                ));
                assert(doc_streams(d0).dom().contains(id2) ==> doc_streams(*d)[id2] == doc_streams(
                    d0,
                )[id2]);
                assert(forall|p: ((u32, u16), Seq<u8>)|
                    p.0 == id2 ==> ((#[trigger] doc_stream_names(*d).dom().contains(p)
                        <==> doc_stream_names(d0).dom().contains(p)) && (doc_stream_names(
                        d0,
                    ).dom().contains(p) ==> doc_stream_names(*d)[p] == doc_stream_names(d0)[p])));
                assert(forall|p: ((u32, u16), Seq<u8>)|
                    p.0 == id2 ==> ((#[trigger] doc_dict_entries(*d).dom().contains(p)
                        <==> doc_dict_entries(d0).dom().contains(p)) && (doc_dict_entries(
                        d0,
                    ).dom().contains(p) ==> doc_dict_entries(*d)[p] == doc_dict_entries(d0)[p])));
            }
        }
        j = j + 1;
    }
    proof {
        assert(dirty@.take(dirty@.len() as int) =~= dirty@);
    }
}

/// Classifies every object of the document and applies the classification:
/// a dictionary made up entirely of metadata keys (and at least one) is
/// deleted as a whole object, any other dictionary loses exactly its metadata
/// keys and keeps every other entry unchanged, every XMP metadata stream
/// object is deleted whole, every other stream keeps its content, and nothing
/// is added.
pub fn pdf_process(d: &mut lopdf::Document) -> (r: Result<(), PurgeErr>)
    requires
        table_shape_ok(*old(d)),
    ensures
        r is Ok,
        pdf_scrubbed(*old(d), *final(d)),
{
    let ghost d0 = *old(d);
    let dirty = classify_objects(d);
    apply_marks(d, &dirty);
    proof {
        assert forall|id: (u32, u16)| #[trigger]
            doc_dicts(d0).dom().contains(id) && delete_whole(doc_dicts(d0)[id]) implies
            !doc_ids(*d).contains(id) && !doc_dicts(*d).dom().contains(id) by {
            let t = choose|t: int| 0 <= t < dirty@.len() && target(#[trigger] dirty@[t]) == id;
            match dirty@[t] {
                PdfDirtyObject::Empty(_) => {},
                PdfDirtyObject::Dict(_, _) => {
                    assert(false);
                },
                PdfDirtyObject::MetadataStream(_) => {
                    assert(false);
                },
            }
        }
        assert forall|id: (u32, u16)| #[trigger]
            doc_dicts(d0).dom().contains(id) && !delete_whole(doc_dicts(d0)[id]) implies doc_dicts(
            *d,
        ).dom().contains(id) && doc_dicts(*d)[id] == strip_keys(doc_dicts(d0)[id]) by {
            if some_meta(doc_dicts(d0)[id]) {
                let t = choose|t: int| 0 <= t < dirty@.len() && target(#[trigger] dirty@[t]) == id;
                match dirty@[t] {
                    PdfDirtyObject::Empty(_) => {
                        assert(false);
                    },
                    PdfDirtyObject::Dict(_, _) => {},
                    PdfDirtyObject::MetadataStream(_) => {
                        assert(false);
                    },
                }
            } else {
                if sched_in(dirty@, id) {
                    let t = choose|t: int|
                        0 <= t < dirty@.len() && target(#[trigger] dirty@[t]) == id;
                    match dirty@[t] {
                        PdfDirtyObject::Empty(_) => {
                            assert(false);
                        },
                        PdfDirtyObject::Dict(_, ks) => {
                            assert(key_views(ks@).contains(key_views(ks@)[0]));
                            assert(false);
                        },
                        PdfDirtyObject::MetadataStream(_) => {
                            assert(false);
                        },
                    }
                }
                assert(pristine_at(id, d0, *d));
                assert(doc_dicts(*d)[id] =~= strip_keys(doc_dicts(d0)[id]));
            }
        }
        assert forall|p: ((u32, u16), Seq<u8>)| #[trigger]
            doc_dict_entries(*d).dom().contains(p) implies doc_dict_entries(d0).dom().contains(p)
            && doc_dict_entries(*d)[p] == doc_dict_entries(d0)[p] && !is_meta_key(p.1) by {
            assert(doc_dicts(d0).dom().contains(p.0) && doc_dicts(d0)[p.0].contains(p.1));
            if is_meta_key(p.1) {
                assert(some_meta(doc_dicts(d0)[p.0]));
                let t = choose|t: int|
                    0 <= t < dirty@.len() && target(#[trigger] dirty@[t]) == p.0;
                match dirty@[t] {
                    PdfDirtyObject::Empty(_) => {
                        assert(false);
                    },
                    PdfDirtyObject::Dict(_, _) => {
                        assert(false);
                    },
                    PdfDirtyObject::MetadataStream(_) => {
                        assert(false);
                    },
                }
            }
        }
        assert forall|p: ((u32, u16), Seq<u8>)| #[trigger]
            doc_dict_entries(d0).dom().contains(p) && !is_meta_key(p.1) implies doc_dict_entries(
            *d,
        ).dom().contains(p) by {
            assert(doc_dicts(d0).dom().contains(p.0) && doc_dicts(d0)[p.0].contains(p.1));
            assert(!delete_whole(doc_dicts(d0)[p.0]));
            if some_meta(doc_dicts(d0)[p.0]) {
                let t = choose|t: int|
                    0 <= t < dirty@.len() && target(#[trigger] dirty@[t]) == p.0;
                match dirty@[t] {
                    PdfDirtyObject::Empty(_) => {
                        assert(false);
                    },
                    PdfDirtyObject::Dict(_, _) => {},
                    PdfDirtyObject::MetadataStream(_) => {
                        assert(false);
                    },
                }
            } else {
                if sched_in(dirty@, p.0) {
                    let t = choose|t: int|
                        0 <= t < dirty@.len() && target(#[trigger] dirty@[t]) == p.0;
                    match dirty@[t] {
                        PdfDirtyObject::Empty(_) => {
                            assert(false);
                        },
                        PdfDirtyObject::Dict(_, ks) => {
                            assert(key_views(ks@).contains(key_views(ks@)[0]));
                            assert(false);
                        },
                        PdfDirtyObject::MetadataStream(_) => {
                            assert(false);
                        },
                    }
                }
                assert(pristine_at(p.0, d0, *d));
            }
        }
        assert forall|id: (u32, u16)|
            is_xmp(doc_stream_names(d0), id) implies !doc_ids(*d).contains(id) && !doc_streams(
            *d,
        ).dom().contains(id) by {
            let t = choose|t: int| 0 <= t < dirty@.len() && target(#[trigger] dirty@[t]) == id;
            match dirty@[t] {
                PdfDirtyObject::Empty(_) => {
                    assert(doc_stream_names(d0).dom().contains((id, "Subtype".spec_bytes())));
                    assert(doc_streams(d0).dom().contains(id));
                    assert(false);
                },
                PdfDirtyObject::Dict(_, _) => {
                    assert(doc_stream_names(d0).dom().contains((id, "Subtype".spec_bytes())));
                    assert(doc_streams(d0).dom().contains(id));
                    assert(false);
                },
                PdfDirtyObject::MetadataStream(_) => {},
            }
        }
        assert forall|id: (u32, u16)| #[trigger]
            doc_streams(d0).dom().contains(id) && !is_xmp(doc_stream_names(d0), id) implies
            doc_streams(*d).dom().contains(id) && doc_streams(*d)[id] == doc_streams(d0)[id] by {
            if sched_in(dirty@, id) {
                let t = choose|t: int| 0 <= t < dirty@.len() && target(#[trigger] dirty@[t]) == id;
                match dirty@[t] {
                    PdfDirtyObject::Empty(_) => {
                        assert(false);
                    },
                    PdfDirtyObject::Dict(_, _) => {
                        assert(false);
                    },
                    PdfDirtyObject::MetadataStream(_) => {
                        assert(false);
                    },
                }
            }
            assert(pristine_at(id, d0, *d));
        }
        assert forall|p: ((u32, u16), Seq<u8>)| #[trigger]
            doc_stream_names(*d).dom().contains(p) implies doc_stream_names(d0).dom().contains(p)
            && doc_stream_names(*d)[p] == doc_stream_names(d0)[p] && !is_xmp(
            doc_stream_names(d0),
            p.0,
        ) by {
            if is_xmp(doc_stream_names(d0), p.0) {
                let t = choose|t: int|
                    0 <= t < dirty@.len() && target(#[trigger] dirty@[t]) == p.0;
                match dirty@[t] {
                    PdfDirtyObject::Empty(_) => {
                        assert(doc_stream_names(d0).dom().contains((p.0, "Subtype".spec_bytes())));
                        assert(doc_streams(d0).dom().contains(p.0));
                        assert(false);
                    },
                    PdfDirtyObject::Dict(_, _) => {
                        assert(doc_stream_names(d0).dom().contains((p.0, "Subtype".spec_bytes())));
                        assert(doc_streams(d0).dom().contains(p.0));
                        assert(false);
                    },
                    PdfDirtyObject::MetadataStream(_) => {
                        assert(false);
                    },
                }
            }
        }
        assert forall|p: ((u32, u16), Seq<u8>)| #[trigger]
            doc_stream_names(d0).dom().contains(p) && !is_xmp(doc_stream_names(d0), p.0) implies
            doc_stream_names(*d).dom().contains(p) by {
            if sched_in(dirty@, p.0) {
                let t = choose|t: int|
                    0 <= t < dirty@.len() && target(#[trigger] dirty@[t]) == p.0;
                match dirty@[t] {
                    PdfDirtyObject::Empty(_) => {
                        assert(doc_streams(d0).dom().contains(p.0));
                        assert(false);
                    },
                    PdfDirtyObject::Dict(_, _) => {
                        assert(doc_streams(d0).dom().contains(p.0));
                        assert(false);
                    },
                    PdfDirtyObject::MetadataStream(_) => {
                        assert(false);
                    },
                }
            }
            assert(pristine_at(p.0, d0, *d));
        }
        assert forall|id: (u32, u16)| #[trigger]
            doc_ids(d0).contains(id) && !doc_dicts(d0).dom().contains(id) && !doc_streams(
            d0,
        ).dom().contains(id) implies doc_ids(*d).contains(id) by {
            if sched_in(dirty@, id) {
                let t = choose|t: int| 0 <= t < dirty@.len() && target(#[trigger] dirty@[t]) == id;
                match dirty@[t] {
                    PdfDirtyObject::Empty(_) => {
                        assert(false);
                    },
                    PdfDirtyObject::Dict(_, _) => {
                        assert(false);
                    },
                    PdfDirtyObject::MetadataStream(_) => {
                        assert(doc_stream_names(d0).dom().contains((id, "Subtype".spec_bytes())));
                        assert(doc_streams(d0).dom().contains(id));
                        assert(false);
                    },
                }
            }
            assert(pristine_at(id, d0, *d));
        }
    }
    Ok(())
}

/// The lifecycle state of one PDF unit: a stub before loading, then the
/// parsed in-memory document.
pub enum PdfState {
    Stub,
    Data(lopdf::Document),
}

/// One PDF file under processing: its paths and its lifecycle state.
pub struct Pdf {
    pub paths: DataPaths,
    pub data: PdfState,
}

impl Pdf {
    /// The unit holds a parsed document whose object table is well formed.
    pub open spec fn loaded(&self) -> bool {
        self.data matches PdfState::Data(doc) && table_shape_ok(doc)
    }

    pub fn new(paths: DataPaths) -> (r: Pdf)
        ensures
            r.paths == paths,
            r.data is Stub,
    {
        Pdf { paths, data: PdfState::Stub }
    }

    /// Parses the raw bytes read from the original file, succeeding exactly on
    /// buffers that parse as a PDF; a rejected buffer leaves the unit unloaded
    /// and reports the parse failure.
    pub fn load_bytes(&mut self, data: &Vec<u8>) -> (r: Result<(), PurgeErr>)
        ensures
            final(self).paths == old(self).paths,
            r is Ok <==> pdf_parses(data@),
            r is Ok ==> final(self).loaded(),
            r is Err ==> final(self).data is Stub && (r matches Err(
                PurgeErr::DocumentParseError,
            )),
    {
        match pdf_load(data) {
            Ok(doc) => {
                self.data = PdfState::Data(doc);
                Ok(())
            },
            Err(_) => {
                self.data = PdfState::Stub;
                Err(PurgeErr::DocumentParseError)
            },
        }
    }

    /// Applies the two classification passes to the loaded document.  Calling
    /// this before a load is a programming error, ruled out by contract.
    pub fn process(self) -> (r: Result<Pdf, PurgeErr>)
        requires
            self.loaded(),
        ensures
            r matches Ok(p) && p.paths == self.paths && (self.data matches PdfState::Data(doc0)
                && p.data matches PdfState::Data(doc1) && pdf_scrubbed(doc0, doc1)),
    {
        let paths = self.paths;
        let doc_opt = match self.data {
            PdfState::Data(doc) => Some(doc),
            PdfState::Stub => None,
        };
        let mut doc = doc_opt.unwrap();
        let r = pdf_process(&mut doc);
        proof {
            assert(r is Ok);
        }
        Ok(Pdf { paths, data: PdfState::Data(doc) })
    }

    /// Serializes the processed document for committing to disk, succeeding
    /// exactly when the document serializes.
    pub fn save_bytes(self) -> (r: Result<Vec<u8>, PurgeErr>)
        requires
            self.data is Data,
        ensures
            r is Ok <==> (self.data matches PdfState::Data(doc) && pdf_serializable(doc)),
            r matches Ok(b) ==> (self.data matches PdfState::Data(doc) && b@ == pdf_serialized(
                doc,
            )),
    {
        let doc_opt = match self.data {
            PdfState::Data(doc) => Some(doc),
            PdfState::Stub => None,
        };
        let mut doc = doc_opt.unwrap();
        match pdf_save(&mut doc) {
            Ok(bytes) => Ok(bytes),
            Err(_) => Err(PurgeErr::DocumentParseError),
        }
    }

    pub fn inner_file_name(&self) -> (r: String)
        ensures
            r@ == self.paths.old_spec(),
    {
        self.paths.old_owned()
    }
}

/// PDF metadata strip, between the original and the processed document:
/// a dictionary made up entirely of metadata keys is deleted as a whole
/// object; any other dictionary remains with exactly its metadata keys
/// removed and every other entry's value unchanged; no metadata entry
/// survives in any dictionary; every XMP metadata stream is deleted as a
/// whole object, content included, and every other stream keeps its content;
/// every object that is neither a dictionary nor a stream survives; and no
/// object is added.
pub open spec fn pdf_scrubbed(doc0: lopdf::Document, doc1: lopdf::Document) -> bool {
    &&& forall|id: (u32, u16)| #[trigger]
        doc_dicts(doc0).dom().contains(id) && delete_whole(doc_dicts(doc0)[id]) ==> !doc_ids(
            doc1,
        ).contains(id) && !doc_dicts(doc1).dom().contains(id)
    &&& forall|id: (u32, u16)| #[trigger]
        doc_dicts(doc0).dom().contains(id) && !delete_whole(doc_dicts(doc0)[id]) ==> doc_dicts(
            doc1,
        ).dom().contains(id) && doc_dicts(doc1)[id] == strip_keys(doc_dicts(doc0)[id])
    &&& forall|p: ((u32, u16), Seq<u8>)| #[trigger]
        doc_dict_entries(doc1).dom().contains(p) ==> doc_dict_entries(doc0).dom().contains(p)
            && doc_dict_entries(doc1)[p] == doc_dict_entries(doc0)[p] && !is_meta_key(p.1)
    &&& forall|p: ((u32, u16), Seq<u8>)| #[trigger]
        doc_dict_entries(doc0).dom().contains(p) && !is_meta_key(p.1) ==> doc_dict_entries(
            doc1,
        ).dom().contains(p)
    &&& forall|id: (u32, u16)|
        is_xmp(doc_stream_names(doc0), id) ==> !doc_ids(doc1).contains(id) && !doc_streams(
            doc1,
        ).dom().contains(id)
    &&& forall|id: (u32, u16)| #[trigger]
        doc_streams(doc0).dom().contains(id) && !is_xmp(doc_stream_names(doc0), id)
            ==> doc_streams(doc1).dom().contains(id) && doc_streams(doc1)[id] == doc_streams(
            doc0,
        )[id]
    &&& forall|p: ((u32, u16), Seq<u8>)| #[trigger]
        doc_stream_names(doc1).dom().contains(p) ==> doc_stream_names(doc0).dom().contains(p)
            && doc_stream_names(doc1)[p] == doc_stream_names(doc0)[p] && !is_xmp(
            doc_stream_names(doc0),
            p.0,
        )
    &&& forall|p: ((u32, u16), Seq<u8>)| #[trigger]
        doc_stream_names(doc0).dom().contains(p) && !is_xmp(doc_stream_names(doc0), p.0)
            ==> doc_stream_names(doc1).dom().contains(p)
    &&& forall|id: (u32, u16)| #[trigger] doc_ids(doc1).contains(id) ==> doc_ids(doc0).contains(id)
    &&& forall|id: (u32, u16)| #[trigger]
        doc_dicts(doc1).dom().contains(id) ==> doc_dicts(doc0).dom().contains(id)
    &&& forall|id: (u32, u16)| #[trigger]
        doc_ids(doc0).contains(id) && !doc_dicts(doc0).dom().contains(id) && !doc_streams(
            doc0,
        ).dom().contains(id) ==> doc_ids(doc1).contains(id)
}

} // verus!
