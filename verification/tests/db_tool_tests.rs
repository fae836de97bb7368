use parse_pdms_db::db_tool::db1_dehash;

#[test]
fn db1_dehash_test() {
    let name = db1_dehash(0xC551C);
    println!("name={}", name);
}

#[test]
fn db1_dehash_names() {
    assert_eq!(db1_dehash(0x81BF1 + 2 + 15 * 27 + 24 * 729), "BOX");
    assert_eq!(db1_dehash(0xC551C), "BRAN");
    assert_eq!(db1_dehash(0x81BF1), "");
}

#[test]
fn db1_dehash_uda() {
    // 0x171FAD39 + (33 + 34 * 64): ':' then 'A' (33 + 32) and 'B' (34 + 32).
    assert_eq!(db1_dehash(0x171FAD39 + 33 + 34 * 64), ":AB");
    assert_eq!(db1_dehash(0x171FAD39 + 0x1000000), ":");
}
