use calibre_shelf::slug::{extract_id, slug_for, slugify};

#[test]
fn slugify_lowercases_and_dashes_spaces() {
    assert_eq!(slugify("Dune"), "dune");
    assert_eq!(slugify("The Left Hand of Darkness"), "the-left-hand-of-darkness");
}

#[test]
fn slugify_drops_punctuation_and_non_ascii() {
    assert_eq!(slugify("Hello, World! 2nd ed."), "hello-world-2nd-ed");
    assert_eq!(slugify("Café Noël"), "caf-nol");
    assert_eq!(slugify(""), "");
}

#[test]
fn extract_id_reads_leading_digits() {
    assert_eq!(extract_id("7-dune").unwrap(), 7);
    assert_eq!(extract_id("123abc").unwrap(), 123);
    assert_eq!(extract_id("0042-x").unwrap(), 42);
    assert_eq!(extract_id("55").unwrap(), 55);
}

#[test]
fn extract_id_without_leading_digits_fails() {
    assert!(extract_id("dune-7").is_err());
    assert!(extract_id("").is_err());
    assert!(extract_id("-12").is_err());
}

#[test]
fn extract_id_overflow_fails() {
    assert!(extract_id("99999999999999999999999999-big").is_err());
}

#[test]
fn slug_for_joins_id_and_title() {
    assert_eq!(slug_for(7, "Dune"), "7-dune");
    assert_eq!(slug_for(0, "A Tale"), "0-a-tale");
    assert_eq!(slug_for(1203, ""), "1203-");
}

#[test]
fn slug_round_trip_recovers_id() {
    for (id, title) in [(0u64, "x"), (7, "Dune"), (42, "42 Answers"), (987654321, "9 to 5"), (u64::MAX, "")] {
        let slug = slug_for(id, title);
        assert_eq!(extract_id(&slug).unwrap() as u64, id);
    }
}
