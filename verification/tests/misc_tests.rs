use parse_pdms_db::local_db::helper::combine_to_u64;
use parse_pdms_db::prim_geo::helper::quad_indices;
use parse_pdms_db::prim_geo::pdms_shape::VerifiedShape;
use parse_pdms_db::text::normalize;
use parse_pdms_db::db_tool::db1_dehash;
use parse_pdms_db::pdms_types::{RefI32Tuple, RefU64};

#[test]
fn combine_two_words() {
    assert_eq!(combine_to_u64(0x0000_3F5D, 0x0000_0001), 0x0000_3F5D_0000_0001);
    assert_eq!(combine_to_u64(0, 0), 0);
    assert_eq!(combine_to_u64(u32::MAX, u32::MAX), u64::MAX);
}

#[test]
fn quad_gives_two_triangles() {
    let mut idx = vec![99usize];
    let mut l = 1usize;
    quad_indices(&mut idx, &mut l, 10, 0, 1, 2, 3);
    assert_eq!(idx, vec![99, 10, 11, 12, 12, 13, 10]);
    assert_eq!(l, 7);
}

struct Plain;
impl VerifiedShape for Plain {}

#[test]
fn shapes_are_valid_by_default() {
    assert!(Plain.check_valid());
}

#[test]
fn normal_names() {
    assert_eq!(normalize("  box\t"), "BOX");
    assert_eq!(normalize("Ä a1"), "Ä A1");
    assert_eq!(normalize(""), "");
    let once = normalize(" \u{a0}pipe \n");
    assert_eq!(once, "PIPE");
    assert_eq!(normalize(&once), once);
}

#[test]
fn test_refu64() {
    let refno = RefU64::from(RefI32Tuple(((16477, 80))));
    println!("refno={}", refno.0);
    assert_eq!(refno.0, (16477u64 << 32) | 80);
}

#[test]
fn refno_conversions_round_trip() {
    let t = RefI32Tuple::new(-3, 2147483647);
    let r = RefU64::from_tuple(&t);
    assert_eq!(RefI32Tuple::from_refu64(&r), t);
    assert_eq!(RefI32Tuple::from(r), t);
    assert_eq!(RefU64::from(t), r);
    assert_eq!(r.get_0(), 0xFFFF_FFFD);
    assert_eq!(r.get_1(), 0x7FFF_FFFF);
    assert_eq!(RefU64::from_two_nums(r.get_0(), r.get_1()), r);
    assert_eq!(r.to_refno_str(), "-3/2147483647");
    assert_eq!(t.to_refno_string(), "-3/2147483647");
    let bytes = [0, 0, 0x40, 0x5D, 0, 0, 0, 0x50, 1];
    assert_eq!(RefU64::from_bytes(&bytes), RefU64::from_tuple(&RefI32Tuple::from_bytes(&bytes)));
}

#[test]
fn dehashed_names_are_unambiguous() {
    let names: Vec<String> = (0x81BF1u32..0x81BF1 + 800).map(db1_dehash).collect();
    let mut sorted = names.clone();
    sorted.sort();
    sorted.dedup();
    assert_eq!(sorted.len(), names.len());
}

#[test]
fn refno_text_parsing() {
    assert_eq!(RefI32Tuple::from_text("16477/80"), RefI32Tuple((16477, 80)));
    assert_eq!(RefI32Tuple::from_text("-2147483648/+7/9"), RefI32Tuple((i32::MIN, 7)));
    assert_eq!(RefI32Tuple::from_text("x/2147483648"), RefI32Tuple((0, 0)));
    assert_eq!(RefI32Tuple::from_text("/"), RefI32Tuple((0, 0)));
    let t = RefI32Tuple::new(i32::MIN, -1);
    assert_eq!(RefI32Tuple::from_text(&t.to_refno_string()), t);
}
