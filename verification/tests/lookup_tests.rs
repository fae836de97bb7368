use parse_pdms_db::pdms_types::{AiosStr, RefU64, RefU64Vec, StringLookupTable};

#[test]
fn strings_hash_with_fnv1a_and_a_terminator() {
    assert_eq!(AiosStr("BOX".to_string()).get_u32_hash(), 0x1f337d57);
    assert_eq!(AiosStr(String::new()).get_u32_hash(), 0x7a0b824e);
    assert_eq!(AiosStr("Ä".to_string()).get_u32_hash(), 0x70d91287);
}

#[test]
fn added_strings_read_back() {
    let mut t = StringLookupTable::new();
    let h = t.add_str("BOX");
    assert_eq!(h, 0x1f337d57);
    assert_eq!(t.get_string(h), Some("BOX".to_string()));
    assert_eq!(t.add_str("BOX"), h);
    assert_eq!(t.get_string(h), Some("BOX".to_string()));
    assert_eq!(t.get_string(h ^ 1), None);
    let s = AiosStr("PIPE".to_string());
    assert_eq!(s.as_str(), "PIPE");
    assert_eq!(s.take(), "PIPE");
}

#[test]
fn default_table_is_empty() {
    let t = StringLookupTable::default();
    assert_eq!(t.get_string(0x1f337d57), None);
}

#[test]
fn merge_prefers_the_other_table() {
    let mut a = StringLookupTable::new();
    let hb = a.add_str("BOX");
    let mut b = StringLookupTable::new();
    let hp = b.add_str("PIPE");
    let he = b.add_str("");
    assert!(a.merge(&b));
    assert_eq!(a.get_string(hb), Some("BOX".to_string()));
    assert_eq!(a.get_string(hp), Some("PIPE".to_string()));
    assert_eq!(a.get_string(he), Some(String::new()));
    assert_eq!(b.get_string(hb), None);
}

#[test]
fn refno_lists_append() {
    let mut v = RefU64Vec::default();
    v.push(RefU64(5));
    v.push(RefU64(5));
    v.push(RefU64(7));
    assert_eq!(v.0, vec![RefU64(5), RefU64(5), RefU64(7)]);
}
