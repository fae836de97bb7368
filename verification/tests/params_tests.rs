use parse_pdms_db::get_attr::parse_param_to_hashmap;
use parse_pdms_db::get_attr_tool;
use parse_pdms_db::helper;
use parse_pdms_db::param_parse::parse_design_param_to_hashmap;
use parse_pdms_db::text::split_words;

#[test]
fn words_split_on_space_and_line_feed() {
    assert_eq!(split_words("10  20\n30 "), vec!["10", "20", "30"]);
    assert!(split_words("").is_empty());
    assert!(split_words(" \n ").is_empty());
    assert_eq!(split_words("a\tb"), vec!["a\tb"]);
}

#[test]
fn param_map_numbers_words_from_one() {
    let m = parse_param_to_hashmap("100 25.4\n7");
    assert_eq!(m.len(), 7);
    assert_eq!(m.get("PARAM1").map(|s| s.as_str()), Some("100"));
    assert_eq!(m.get("PARAM2").map(|s| s.as_str()), Some("25.4"));
    assert_eq!(m.get("PARAM3").map(|s| s.as_str()), Some("7"));
    assert_eq!(m.get("IPARAM1").map(|s| s.as_str()), Some("0.0"));
    assert_eq!(m.get("IPARAM3").map(|s| s.as_str()), Some("0.0"));
    assert_eq!(m.get("IPARAM").map(|s| s.as_str()), Some("0.0"));
    assert!(m.get("PARAM4").is_none());
    assert!(m.get("PARAM0").is_none());
}

#[test]
fn param_map_of_empty_text() {
    let m = parse_param_to_hashmap("   ");
    assert_eq!(m.len(), 1);
    assert_eq!(m.get("IPARAM").map(|s| s.as_str()), Some("0.0"));
}

#[test]
fn param_map_with_ten_words() {
    let m = parse_param_to_hashmap("a b c d e f g h i j");
    assert_eq!(m.len(), 21);
    assert_eq!(m.get("PARAM10").map(|s| s.as_str()), Some("j"));
    assert_eq!(m.get("PARAM1").map(|s| s.as_str()), Some("a"));
}

#[test]
fn design_params_numbered_from_one() {
    let m = parse_design_param_to_hashmap(" 5 6\n");
    assert_eq!(m.len(), 2);
    assert_eq!(m.get("DESP1").map(|s| s.as_str()), Some("5"));
    assert_eq!(m.get("DESP2").map(|s| s.as_str()), Some("6"));
    assert!(m.get("DESP3").is_none());
    assert!(parse_design_param_to_hashmap("").is_empty());
}

fn strs(v: &[&str]) -> Vec<String> {
    v.iter().map(|s| s.to_string()).collect()
}

#[test]
fn context_keys_of_expression_words() {
    let words = strs(&["PARAM", "3", "ANGL", "IPAR", "2", "DESP", "1", "FOO"]);
    let mut i = 0usize;
    assert_eq!(get_attr_tool::convert_to_context_key("PARAM", &mut i, &words), Some("PARAM3".to_string()));
    assert_eq!(i, 1);
    let mut i = 2usize;
    assert_eq!(get_attr_tool::convert_to_context_key("ANGL", &mut i, &words), Some("DDANGLE".to_string()));
    assert_eq!(i, 2);
    let mut i = 3usize;
    assert_eq!(get_attr_tool::convert_to_context_key("IPAR", &mut i, &words), Some("IPARAM2".to_string()));
    assert_eq!(i, 4);
    let mut i = 5usize;
    assert_eq!(get_attr_tool::convert_to_context_key("DESP", &mut i, &words), Some("DESP1".to_string()));
    assert_eq!(i, 6);
    let mut i = 7usize;
    assert_eq!(get_attr_tool::convert_to_context_key("FOO", &mut i, &words), Some(String::new()));
    assert_eq!(i, 7);
    let mut i = 0usize;
    assert_eq!(get_attr_tool::convert_to_context_key("DDESP", &mut i, &words), Some(String::new()));
    assert_eq!(i, 0);
}

#[test]
fn helper_context_keys_know_design_param() {
    let words = strs(&["DESIGN PARAM", "x", "4", "DDESP", "9"]);
    let mut i = 0usize;
    assert_eq!(helper::convert_to_context_key("DESIGN PARAM", &mut i, &words), Some("DESP4".to_string()));
    assert_eq!(i, 2);
    let mut i = 3usize;
    assert_eq!(helper::convert_to_context_key("DDESP", &mut i, &words), Some("DESP9".to_string()));
    assert_eq!(i, 4);
    let mut i = 0usize;
    assert_eq!(helper::convert_to_context_key("PARA", &mut i, &words), Some("PARAMx".to_string()));
    assert_eq!(i, 1);
    let mut i = 0usize;
    assert_eq!(helper::convert_to_context_key("CPAR", &mut i, &words), Some("PARAMx".to_string()));
    assert_eq!(i, 1);
    let mut i = 4usize;
    assert_eq!(helper::convert_to_context_key("ANGL", &mut i, &words), Some("ANGL".to_string()));
    assert_eq!(i, 4);
    let mut i = 4usize;
    assert_eq!(helper::convert_to_context_key("HEIG", &mut i, &words), Some(String::new()));
    assert_eq!(i, 4);
}

#[test]
fn big_endian_readers() {
    assert_eq!(helper::parse_to_u16(&[0x12, 0x34]), 0x1234);
    assert_eq!(helper::parse_to_i32(&[0xFF, 0xFF, 0xFF, 0xFE]), -2);
    assert_eq!(helper::parse_to_u32(&[0x00, 0x0C, 0x55, 0x1C]), 0xC551C);
    assert_eq!(helper::convert_u32_to_noun(&[0x00, 0x0C, 0x55, 0x1C]), "BRAN");
}
