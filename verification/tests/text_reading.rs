use rlg::catalog::{item_type, record_type_of};
use rlg::components::{PhysicalCharacteristics, Position, WieldedItems, WornItems};
use rlg::json::Json;
use rlg::systems::attach_clothes;
use rlg::text::{drop_last_bytes, is_whitespace, parse_i32, split_words};

#[test]
fn words_split_on_any_white_space() {
    assert_eq!(split_words("range 1 to 1024"), vec!["range", "1", "to", "1024"]);
    assert_eq!(split_words("  a\t\tb\n c  "), vec!["a", "b", "c"]);
    assert_eq!(split_words("x\u{3000}y\u{a0}z"), vec!["x", "y", "z"]);
    assert!(split_words("   ").is_empty());
    assert!(split_words("").is_empty());
    let s = "one  two\u{2003}three";
    let std_words: Vec<String> = s.split_whitespace().map(String::from).collect();
    assert_eq!(split_words(s), std_words);
}

#[test]
fn white_space_is_the_unicode_set() {
    for c in ['\t', '\n', '\u{b}', '\u{c}', '\r', ' ', '\u{85}', '\u{a0}', '\u{1680}', '\u{2000}', '\u{200a}', '\u{2028}', '\u{2029}', '\u{202f}', '\u{205f}', '\u{3000}'] {
        assert!(is_whitespace(c), "{:?}", c);
        assert_eq!(is_whitespace(c), c.is_whitespace());
    }
    for c in ['a', '\u{200b}', '_', '\u{feff}', '0'] {
        assert!(!is_whitespace(c));
        assert_eq!(is_whitespace(c), c.is_whitespace());
    }
}

#[test]
fn numbers_parse_as_i32_does() {
    assert_eq!(parse_i32("1024"), Some(1024));
    assert_eq!(parse_i32("+5"), Some(5));
    assert_eq!(parse_i32("-17"), Some(-17));
    assert_eq!(parse_i32("-0"), Some(0));
    assert_eq!(parse_i32("007"), Some(7));
    assert_eq!(parse_i32("2147483647"), Some(i32::MAX));
    assert_eq!(parse_i32("-2147483648"), Some(i32::MIN));
    assert_eq!(parse_i32("2147483648"), None);
    assert_eq!(parse_i32("-2147483649"), None);
    assert_eq!(parse_i32("99999999999999999999"), None);
    assert_eq!(parse_i32(""), None);
    assert_eq!(parse_i32("-"), None);
    assert_eq!(parse_i32("+"), None);
    assert_eq!(parse_i32("1a"), None);
    assert_eq!(parse_i32(" 1"), None);
    assert_eq!(parse_i32("+-1"), None);
    for s in ["12", "-3", "+4", "x", "", "2147483648", "-2147483648"] {
        assert_eq!(parse_i32(s), s.parse::<i32>().ok(), "{}", s);
    }
}

#[test]
fn extensions_are_cut_by_bytes() {
    assert_eq!(drop_last_bytes("tiles.png", 4), Some("tiles".to_string()));
    assert_eq!(drop_last_bytes("a.b", 4), None);
    assert_eq!(drop_last_bytes("png", 3), Some(String::new()));
    assert_eq!(drop_last_bytes("tilé.png", 4), Some("tilé".to_string()));
    // the cut would fall inside the three bytes of '€'
    assert_eq!(drop_last_bytes("ab€xy", 4), None);
    assert_eq!(drop_last_bytes("ab€x", 4), Some("ab".to_string()));
}

#[test]
fn case_mappings_are_unicode() {
    let typed = |t: &str| Json::Object(vec![("type".to_string(), Json::Str(t.to_string()))]);
    assert_eq!(record_type_of(&typed("ARMOR")), "armor");
    assert_eq!(record_type_of(&typed("Tool_Armor")), "tool_armor");
    let chars = PhysicalCharacteristics {
        gender: "male".to_string(),
        eye_color: "gray".to_string(),
        hair_color: "brown".to_string(),
        hair_style: "short".to_string(),
        skin: "straße".to_string(),
    };
    let plan = attach_clothes(&chars, &WornItems { worn: vec![] }, &WieldedItems { wielded: vec![] }, &Position { x: 0, y: 0 });
    assert_eq!(plan.layers[1], "overlay_male_mutation_SKIN_STRASSE");
    assert!(item_type("armor"));
    assert!(item_type("tool_armor"));
    assert!(!item_type("armour"));
    assert!(!item_type("ARMOR"));
}
