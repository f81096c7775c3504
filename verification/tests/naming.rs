use naming_registry::errors::MockError;
use naming_registry::naming::{
    is_label_character, is_whitespace, normalize_name, to_lower, FirstLevelName, NameDefect,
    NameParseResult,
};
use naming_registry::state::validate_name;

fn invalid(reason: &str) -> MockError {
    MockError::InvalidName { reason: reason.to_string() }
}

#[test]
fn white_space_is_what_the_standard_library_trims() {
    for n in 0..=0x10FFFFu32 {
        if let Some(c) = char::from_u32(n) {
            assert_eq!(is_whitespace(c), c.is_whitespace(), "U+{:04X}", n);
            assert_eq!(to_lower(c), c.to_ascii_lowercase(), "U+{:04X}", n);
            assert_eq!(is_label_character(c), c.is_ascii_alphanumeric() || c == '-');
        }
    }
}

#[test]
fn normal_form_is_trimmed_and_small() {
    assert_eq!(normalize_name("alice.icp"), "alice.icp");
    assert_eq!(normalize_name("  Alice.ICP\t\n"), "alice.icp");
    assert_eq!(normalize_name("\u{3000}A b\u{a0}"), "a b");
    assert_eq!(normalize_name(""), "");
    assert_eq!(normalize_name("   "), "");
    assert_eq!(normalize_name("ÀB"), "Àb");
    let samples = ["", " ", "a", " a", "a ", " a b ", "\tX.Y\r\n", "Z", "é É", "\u{2003}Q\u{2003}"];
    for s in samples {
        assert_eq!(normalize_name(s), s.trim().to_ascii_lowercase());
    }
}

#[test]
fn labels_are_the_pieces_between_dots() {
    let parsed = NameParseResult::parse("www.alice.icp");
    assert_eq!(parsed.get_name(), "www.alice.icp");
    assert_eq!(parsed.get_level_count(), 3);
    assert_eq!(parsed.get_current_level().unwrap(), "www");
    assert_eq!(parsed.get_top_level().unwrap(), "icp");
    let parsed = NameParseResult::parse("");
    assert_eq!(parsed.get_level_count(), 1);
    assert_eq!(parsed.get_current_level().unwrap(), "");
    let parsed = NameParseResult::parse("a.");
    assert_eq!(parsed.get_level_count(), 2);
    assert_eq!(parsed.get_top_level().unwrap(), "");
    let parsed = NameParseResult::parse("..");
    assert_eq!(parsed.get_level_count(), 3);
    assert_eq!(parsed.get_level_count(), "..".split('.').count());
}

#[test]
fn second_level_names_are_accepted() {
    assert_eq!(validate_name("alice.icp").unwrap().get_name(), "alice.icp");
    assert_eq!(validate_name(" Alice.ICP ").unwrap().get_name(), "alice.icp");
    assert_eq!(validate_name("a-1.org").unwrap().to_string(), "a-1.org");
    assert_eq!(validate_name("-.x").unwrap().to_string(), "-.x");
    let longest = format!("{}.icp", "a".repeat(63));
    assert_eq!(validate_name(&longest).unwrap().to_string(), longest);
}

#[test]
fn other_names_are_refused_with_a_reason() {
    assert_eq!(validate_name(""), Err(invalid("it must be second level name")));
    assert_eq!(validate_name("alice"), Err(invalid("it must be second level name")));
    assert_eq!(validate_name("www.alice.icp"), Err(invalid("it must be second level name")));
    assert_eq!(validate_name("   "), Err(invalid("it must be second level name")));
    let too_long = format!("{}.icp", "a".repeat(64));
    assert_eq!(
        validate_name(&too_long),
        Err(invalid("second level name must be less than 64 characters"))
    );
    assert_eq!(validate_name("al_ice.icp"), Err(invalid("name must be alphanumeric or -")));
    assert_eq!(validate_name("al ice.icp"), Err(invalid("name must be alphanumeric or -")));
    assert_eq!(validate_name("ålice.icp"), Err(invalid("name must be alphanumeric or -")));
    assert_eq!(validate_name(".icp"), Err(invalid("name must be alphanumeric or -")));
    assert_eq!(FirstLevelName::parse("alice"), Err(NameDefect::NotSecondLevel));
    assert_eq!(FirstLevelName::parse(&too_long), Err(NameDefect::LabelTooLong));
    assert_eq!(FirstLevelName::parse(".icp"), Err(NameDefect::InvalidCharacter));
    // 40 characters of two bytes each: too many bytes, not too many characters.
    let wide = format!("{}.icp", "é".repeat(40));
    assert_eq!(FirstLevelName::parse(&wide), Err(NameDefect::InvalidCharacter));
}

#[test]
fn validating_twice_is_validating_once() {
    let samples = [
        "alice.icp", " Alice.ICP ", "", "a", "a.b.c", ".icp", "A.", "\tUSER1.org\n", "x y.z",
        "ok.Top Level ", "\u{2003}née.fr",
    ];
    for raw in samples {
        let once = validate_name(raw);
        let normal = normalize_name(raw);
        assert_eq!(normalize_name(&normal), normal);
        let twice = validate_name(&normal);
        assert_eq!(once, twice, "{:?}", raw);
        assert_eq!(validate_name(raw), once);
        if let Ok(name) = &once {
            assert_eq!(name.get_name(), &normal);
            assert_eq!(validate_name(name.get_name()).as_ref(), Ok(name));
        }
    }
}
