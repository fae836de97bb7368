use parse_pdms_db::dict::{
    logical_to_raw, split_pages, AttrDataFile, AttrFileError, FieldType, NounClassifier,
    NounFlags, FIELD_BASE_TYPE, FIELD_GEOMSET, FIELD_GRAPHICS_BEHAVIOUR, FIELD_PRIMITIVE,
    PAGE_BYTES,
};

#[test]
fn field_type_from_code() {
    assert_eq!(FieldType::from_code(1), FieldType::Bool);
    assert_eq!(FieldType::from_code(3), FieldType::Int);
    assert_eq!(FieldType::from_code(4), FieldType::Array);
    assert!(matches!(FieldType::from_code(9), FieldType::Other(9)));
}

#[test]
fn split_pages_slices_by_0x800() {
    let b = vec![0u8; PAGE_BYTES * 3 + 7];
    assert_eq!(split_pages(&b).len(), 3);
}

#[test]
fn logical_to_raw_is_minus_one() {
    assert_eq!(logical_to_raw(2168), 2167);
    assert_eq!(logical_to_raw(2830), 2829);
    assert_eq!(logical_to_raw(2), 1);
    assert_eq!(logical_to_raw(0), 0);
}

#[test]
fn logical_to_raw_never_negative() {
    assert_eq!(logical_to_raw(1), 0);
    assert_eq!(logical_to_raw(-5), 0);
    assert_eq!(logical_to_raw(i32::MAX), (i32::MAX - 1) as usize);
}

#[test]
fn split_pages_reads_big_endian_words() {
    let mut b = vec![0u8; PAGE_BYTES * 2];
    b[0..4].copy_from_slice(&[0x12, 0x34, 0x56, 0x78]);
    b[PAGE_BYTES + 2044..PAGE_BYTES + 2048].copy_from_slice(&[0xFF, 0xFF, 0xFF, 0xFE]);
    let pages = split_pages(&b);
    assert_eq!(pages.len(), 2);
    assert_eq!(pages[0][0], 0x12345678);
    assert_eq!(pages[1][511], -2);
    assert_eq!(split_pages(&b[..PAGE_BYTES - 1]).len(), 0);
}

/// Hash of `BOX` (B=2, O=15, X=24 in base 27 above 0x81BF1).
const BOX_HASH: i32 = 0x81BF1 + 2 + 15 * 27 + 24 * 729;
/// Hash of `NBOX`.
const NBOX_HASH: i32 = 0x81BF1 + 14 + 2 * 27 + 15 * 729 + 24 * 19683;
/// A field that only takes column 1.
const FIELD_DUMMY: i32 = 600000;

fn put(b: &mut [u8], raw_page: usize, word: usize, v: i32) {
    let at = raw_page * PAGE_BYTES + word * 4;
    b[at..at + 4].copy_from_slice(&v.to_be_bytes());
}

/// Five pages: raw 1 header (FIELD at logical 3, NOUN at logical 4), raw 2 FIELD
/// table, raw 3 NOUN index, raw 4 the two noun records.
fn sample_dictionary() -> Vec<u8> {
    let mut b = vec![0u8; PAGE_BYTES * 5];
    put(&mut b, 1, 4, 3);
    put(&mut b, 1, 6, 4);
    // FIELD table: dummy (col 1), primitive (col 2), base_type (col 3),
    // geomset (col 4, default 1), graphics behaviour (col 5, no default).
    let fields: [i32; 17] = [
        FIELD_DUMMY, 3, 1,
        FIELD_PRIMITIVE, 1, 2, 0,
        FIELD_BASE_TYPE, 3, 2, 0,
        FIELD_GEOMSET, 1, 2, 1,
        FIELD_GRAPHICS_BEHAVIOUR, 3,
    ];
    for (k, v) in fields.iter().enumerate() {
        put(&mut b, 2, k, *v);
    }
    put(&mut b, 2, 17, 1);
    put(&mut b, 2, 18, -1);
    // NOUN index: BOX at logical page 5 offset 0, NBOX at offset 100.
    put(&mut b, 3, 0, BOX_HASH);
    put(&mut b, 3, 1, 5 * 512);
    put(&mut b, 3, 2, NBOX_HASH);
    put(&mut b, 3, 3, 5 * 512 + 100);
    put(&mut b, 3, 4, -1);
    // BOX record (row base 0): slots at words 0..3 for columns 2..5.
    put(&mut b, 4, 0, 10); // primitive -> word 8
    put(&mut b, 4, 1, -1); // base_type -> default
    put(&mut b, 4, 2, -1); // geomset -> default 1
    put(&mut b, 4, 3, 11); // graphics behaviour -> word 9
    put(&mut b, 4, 8, 1);
    put(&mut b, 4, 9, 7);
    // NBOX record (row base 100): inherits primitive and geomset from BOX.
    put(&mut b, 4, 100, 0);
    put(&mut b, 4, 101, 12); // base_type -> word 110
    put(&mut b, 4, 102, 0);
    put(&mut b, 4, 103, -1);
    put(&mut b, 4, 110, BOX_HASH);
    b
}

#[test]
fn attr_file_too_short_is_refused() {
    let b = vec![0u8; PAGE_BYTES + 5];
    match AttrDataFile::from_bytes(&b) {
        Err(e) => assert_eq!(e, AttrFileError::TooFewPages(1)),
        Ok(_) => panic!("a file without a header page must be refused"),
    }
}

#[test]
fn attr_file_reads_header_and_indexes() {
    let b = sample_dictionary();
    let f = AttrDataFile::from_bytes(&b).unwrap();
    assert_eq!(f.header(), &[0, 0, 0, 0, 3, 0, 4, 0]);
    assert_eq!(f.noun_count(), 2);
    assert_eq!(f.field_count(), 5);
    assert!(f.has_noun(BOX_HASH));
    assert!(f.has_noun(NBOX_HASH));
    assert!(!f.has_noun(BOX_HASH + 1));
}

#[test]
fn attr_file_reads_values_defaults_and_inheritance() {
    let b = sample_dictionary();
    let f = AttrDataFile::from_bytes(&b).unwrap();
    assert_eq!(f.raw_field(BOX_HASH, FIELD_PRIMITIVE), Some(1));
    assert_eq!(f.raw_field(BOX_HASH, FIELD_GEOMSET), Some(1));
    assert_eq!(f.raw_field(BOX_HASH, FIELD_GRAPHICS_BEHAVIOUR), Some(7));
    assert_eq!(f.raw_field(NBOX_HASH, FIELD_PRIMITIVE), Some(1));
    assert_eq!(f.raw_field(NBOX_HASH, FIELD_GEOMSET), Some(1));
    assert_eq!(f.raw_field(NBOX_HASH, FIELD_GRAPHICS_BEHAVIOUR), Some(0));
    assert_eq!(f.raw_field(BOX_HASH, 123456789), None);
    assert_eq!(f.raw_field(BOX_HASH + 1, FIELD_PRIMITIVE), None);
    assert!(f.field_bool(NBOX_HASH, FIELD_PRIMITIVE));
    assert!(!f.field_bool(NBOX_HASH, FIELD_GRAPHICS_BEHAVIOUR));
    assert_eq!(f.field_int(BOX_HASH, FIELD_GRAPHICS_BEHAVIOUR), Some(7));
    // a slot of 0 takes the base noun's own value
    assert_eq!(f.raw_field(NBOX_HASH, FIELD_PRIMITIVE), f.raw_field(BOX_HASH, FIELD_PRIMITIVE));
    for k in 0..8 {
        let at = PAGE_BYTES + 4 * k;
        assert_eq!(f.header()[k], i32::from_be_bytes([b[at], b[at + 1], b[at + 2], b[at + 3]]));
    }
}

#[test]
fn attr_file_noun_flags() {
    let b = sample_dictionary();
    let f = AttrDataFile::from_bytes(&b).unwrap();
    let fl = f.noun_flags(NBOX_HASH);
    assert_eq!(fl.noun_hash, NBOX_HASH);
    assert_eq!(fl.noun_name, "NBOX");
    assert!(fl.primitive && fl.geomset && !fl.extrusion && !fl.is_pointset_point);
    assert_eq!(fl.graphics_behaviour, Some(0));
    let all = f.all_noun_flags();
    assert_eq!(all.len(), 2);
    assert_eq!(all.len(), f.noun_count());
    assert_eq!(all[0].noun_name, "BOX");
    assert_eq!(all[1].noun_name, "NBOX");
    assert!(all[0].noun_hash < all[1].noun_hash);
}

fn flags(hash: i32, name: &str, primitive: bool, geomset: bool, extrusion: bool) -> NounFlags {
    NounFlags {
        noun_hash: hash,
        noun_name: name.to_string(),
        primitive,
        geomset,
        extrusion,
        is_pointset_point: false,
        graphics_behaviour: None,
    }
}

#[test]
fn classifier_from_attr_file() {
    let b = sample_dictionary();
    let f = AttrDataFile::from_bytes(&b).unwrap();
    let c = NounClassifier::from_attr_file(&f);
    assert_eq!(c.len(), 2);
    assert!(!c.is_empty());
    assert!(c.primitive("box"));
    assert!(c.geomset(" NBOX "));
    assert_eq!(c.graphics_behaviour("BOX"), Some(7));
    assert_eq!(c.negative_candidate_nouns(), vec!["NBOX".to_string()]);
    assert_eq!(c.primitive_nouns(), vec!["BOX".to_string(), "NBOX".to_string()]);
    assert!(c.extrusion_nouns().is_empty());
}

#[test]
fn classifier_reads_back_its_flags() {
    let c = NounClassifier::from_flags(vec![
        flags(700001, "SCYL", false, true, false),
        flags(700002, " box", true, false, false),
        flags(700003, "EXTR", false, false, true),
        flags(700004, "NPOLYH", true, false, false),
        flags(700005, "NOZZ", false, true, false),
        flags(700006, "SITE", false, false, false),
    ]);
    assert_eq!(c.len(), 6);
    assert!(c.contains("Box"));
    assert!(c.primitive("BOX"));
    assert!(c.geomset("scyl"));
    assert!(c.extrusion("EXTR"));
    assert!(!c.primitive("SITE") && !c.geomset("SITE"));
    assert!(!c.primitive("UNKNOWN"));
    assert!(!c.contains("UNKNOWN"));
    assert_eq!(c.graphics_behaviour("UNKNOWN"), None);
    assert_eq!(c.find_noun(700003).map(|f| f.noun_name.clone()), Some("EXTR".to_string()));
    assert!(c.find_noun(1).is_none());
    assert_eq!(c.flags("nozz").map(|f| f.noun_hash), Some(700005));
    assert_eq!(c.primitive_nouns(), vec!["BOX".to_string(), "NPOLYH".to_string()]);
    assert_eq!(c.geomset_nouns(), vec!["NOZZ".to_string(), "SCYL".to_string()]);
    assert_eq!(c.extrusion_nouns(), vec!["EXTR".to_string()]);
    assert_eq!(
        c.negative_candidate_nouns(),
        vec!["NOZZ".to_string(), "NPOLYH".to_string()]
    );
}

#[test]
fn classifier_later_entry_wins() {
    let c = NounClassifier::from_flags(vec![
        flags(700001, "BOX", true, false, false),
        flags(700001, "BOX", false, true, false),
        flags(700002, "", true, false, false),
    ]);
    assert_eq!(c.len(), 2);
    assert!(!c.primitive("BOX"));
    assert!(c.geomset("BOX"));
    assert!(!c.contains(""));
    assert_eq!(c.primitive_nouns(), Vec::<String>::new());
}

#[test]
fn default_classifier_is_empty() {
    let c = NounClassifier::default();
    assert!(c.is_empty());
    assert_eq!(c.len(), 0);
    assert!(!c.primitive("BOX"));
}

#[test]
fn classifier_counts_distinct_hashes_and_last_name_wins() {
    let c = NounClassifier::from_flags(vec![
        flags(700001, "BOX", true, false, false),
        flags(700002, "cyli", false, true, false),
        flags(700001, "BOX", false, false, true),
        flags(700003, " Cyli ", false, false, true),
    ]);
    assert_eq!(c.len(), 3);
    assert!(!c.is_empty());
    assert_eq!(c.find_noun(700001).map(|f| f.extrusion), Some(true));
    // the last entry named CYLI is 700003
    assert_eq!(c.flags("CYLI").map(|f| f.noun_hash), Some(700003));
    assert_eq!(c.flags("cyli").map(|f| f.noun_hash), c.find_noun(700003).map(|f| f.noun_hash));
    for name in ["BOX", "cyli", " box ", "NONE", ""] {
        assert_eq!(c.flags(name).is_some(), c.contains(name));
    }
    assert!(NounClassifier::from_flags(vec![]).is_empty());
}
