use minecraft_block_finder::region::{origin_from_captures, region_start_of, spells_region_name};
use minecraft_block_finder::text::chars_of;
use minecraft_block_finder::{region_coordinates, SearchError};

fn groups(texts: &[Option<&str>]) -> Option<Vec<Option<String>>> {
    Some(texts.iter().map(|t| t.map(|s| s.to_string())).collect())
}

#[test]
fn region_at_origin() {
    assert_eq!(region_coordinates("r.0.0.mca"), Ok((0, 0)));
}

#[test]
fn region_indices_scale_by_512() {
    assert_eq!(region_coordinates("r.1.-2.mca"), Ok((512, -1024)));
    assert_eq!(region_coordinates("r.-3.7.mca"), Ok((-1536, 3584)));
    assert_eq!(region_coordinates("r.12.34.mca"), Ok((6144, 17408)));
    assert_eq!(region_coordinates("r.-0.007.mca"), Ok((0, 3584)));
}

#[test]
fn other_names_are_invalid() {
    for name in [
        "", "level.dat", "r.0.0", "r.0.mca", "r..0.mca", "r.a.b.mca", "r.0.0.mcr", "r.1-2.mca",
        "r.1.2.3.mca", "r.--1.2.mca", "r.1.-.mca", "r.+1.2.mca", "R.1.2.mca", "r.1.2.MCA",
        "r. 1.2.mca", "r.1.2.mca ", " r.1.2.mca", "r.1.2.mca\n", "r.0x1.2.mca",
    ] {
        assert_eq!(region_coordinates(name), Err(SearchError::InvalidFilename), "{name:?}");
    }
}

#[test]
fn name_must_hold_nothing_but_the_form() {
    for name in [
        "r.1.2.mca.bak",
        "bar.1.2.mca",
        "xr.1.2.mca",
        "r.0.0.mca.tmp",
        "r.5.6.mca.backup/r.0.0.mca",
        "r.1.2.mcar.3.4.mca",
    ] {
        assert_eq!(region_coordinates(name), Err(SearchError::InvalidFilename), "{name:?}");
    }
}

#[test]
fn name_comes_without_its_directory() {
    for name in [
        "/saves/world/region/r.2.-1.mca",
        "region/r.0.0.mca",
        "./r.0.0.mca",
        "C:\\saves\\region\\r.-1.0.mca",
    ] {
        assert_eq!(region_coordinates(name), Err(SearchError::InvalidFilename), "{name:?}");
    }
}

#[test]
fn separators_are_dots() {
    assert_eq!(region_coordinates("r.1x2.mca"), Err(SearchError::InvalidFilename));
    assert_eq!(region_coordinates("rx1.2.mca"), Err(SearchError::InvalidFilename));
    assert_eq!(region_coordinates("r.1.2xmca"), Err(SearchError::InvalidFilename));
}

#[test]
fn indices_that_cannot_be_read_are_invalid() {
    assert_eq!(region_coordinates("r.99999999999.0.mca"), Err(SearchError::InvalidFilename));
    assert_eq!(region_coordinates("r.0.-99999999999.mca"), Err(SearchError::InvalidFilename));
    // Digits of another script are no decimal number.
    assert_eq!(region_coordinates("r.\u{0663}.\u{0664}.mca"), Err(SearchError::InvalidFilename));
}

#[test]
fn origins_beyond_i32_are_invalid() {
    assert_eq!(region_coordinates("r.4194303.0.mca"), Ok((2147483136, 0)));
    assert_eq!(region_coordinates("r.4194304.0.mca"), Err(SearchError::InvalidFilename));
    assert_eq!(region_coordinates("r.0.-4194304.mca"), Ok((0, i32::MIN)));
    assert_eq!(region_coordinates("r.0.-4194305.mca"), Err(SearchError::InvalidFilename));
}

#[test]
fn origin_from_captured_groups() {
    let found = groups(&[Some("r.1.2.mca"), Some("1"), Some("2")]);
    assert_eq!(origin_from_captures("r.1.2.mca", &found), Ok((512, 1024)));
    let negative = groups(&[Some("r.-1.-2.mca"), Some("-1"), Some("-2")]);
    assert_eq!(origin_from_captures("r.-1.-2.mca", &negative), Ok((-512, -1024)));
}

#[test]
fn captured_groups_must_spell_the_name() {
    let found = groups(&[Some("r.1.2.mca"), Some("1"), Some("2")]);
    for name in ["r.1.2.mca.bak", "bar.1.2.mca", "dir/r.1.2.mca", "r.2.1.mca", "r.1.2.mc", ""] {
        assert_eq!(origin_from_captures(name, &found), Err(SearchError::InvalidFilename), "{name:?}");
    }
    let signed = groups(&[Some("r.+1.2.mca"), Some("+1"), Some("2")]);
    assert_eq!(origin_from_captures("r.+1.2.mca", &signed), Err(SearchError::InvalidFilename));
}

#[test]
fn origin_needs_a_match_with_both_groups() {
    let name = "r.1.2.mca";
    assert_eq!(origin_from_captures(name, &None), Err(SearchError::InvalidFilename));
    assert_eq!(origin_from_captures(name, &groups(&[])), Err(SearchError::InvalidFilename));
    assert_eq!(
        origin_from_captures(name, &groups(&[Some(name), Some("1")])),
        Err(SearchError::InvalidFilename)
    );
    assert_eq!(
        origin_from_captures(name, &groups(&[Some(name), None, Some("2")])),
        Err(SearchError::InvalidFilename)
    );
    assert_eq!(
        origin_from_captures(name, &groups(&[Some(name), Some("1"), None])),
        Err(SearchError::InvalidFilename)
    );
    assert_eq!(
        origin_from_captures("r.1.two.mca", &groups(&[Some("r.1.two.mca"), Some("1"), Some("two")])),
        Err(SearchError::InvalidFilename)
    );
}

#[test]
fn region_start_scales_and_checks_the_range() {
    assert_eq!(region_start_of(&chars_of("0")), Some(0));
    assert_eq!(region_start_of(&chars_of("3")), Some(1536));
    assert_eq!(region_start_of(&chars_of("-2")), Some(-1024));
    assert_eq!(region_start_of(&chars_of("4194304")), None);
    assert_eq!(region_start_of(&chars_of("+3")), None);
    assert_eq!(region_start_of(&chars_of("")), None);
    assert_eq!(region_start_of(&chars_of("x")), None);
}

#[test]
fn name_is_spelled_by_its_indices() {
    assert!(spells_region_name(&chars_of("r.1.-2.mca"), &chars_of("1"), &chars_of("-2")));
    assert!(!spells_region_name(&chars_of("r.1.-2.mca"), &chars_of("-2"), &chars_of("1")));
    assert!(!spells_region_name(&chars_of("r.1.-2.mca.bak"), &chars_of("1"), &chars_of("-2")));
    assert!(!spells_region_name(&chars_of("ar.1.-2.mca"), &chars_of("1"), &chars_of("-2")));
    assert!(spells_region_name(&chars_of("r...mca"), &chars_of(""), &chars_of("")));
}
