use tracelogging::guid::{Guid, GuidError};

const TEXT: &str = "3970f9cf-2c0c-4f11-b1cc-e3a1e9958833";

fn expected() -> (u32, u16, u16, [u8; 8]) {
    (0x3970f9cf, 0x2c0c, 0x4f11, [0xb1, 0xcc, 0xe3, 0xa1, 0xe9, 0x95, 0x88, 0x33])
}

fn fields(g: Guid) -> (u32, u16, u16, [u8; 8]) {
    (g.data1, g.data2, g.data3, g.data4)
}

#[test]
fn fixed_layout_reads_a_canonical_guid() {
    assert_eq!(fields(Guid::parse_fixed(TEXT).unwrap()), expected());
}

#[test]
fn checked_layout_reads_a_canonical_guid() {
    assert_eq!(fields(Guid::parse_checked(TEXT).unwrap()), expected());
}

#[test]
fn upper_case_digits_are_read_alike() {
    let upper = "3970F9CF-2C0C-4F11-B1CC-E3A1E9958833";
    assert_eq!(fields(Guid::parse_fixed(upper).unwrap()), expected());
    assert_eq!(fields(Guid::parse_checked(upper).unwrap()), expected());
}

#[test]
fn fixed_layout_does_not_look_between_fields() {
    let g = Guid::parse_fixed("3970f9cfX2c0cY4f11Zb1ccWe3a1e9958833 trailing").unwrap();
    assert_eq!(fields(g), expected());
    assert_eq!(Guid::parse_checked("3970f9cfX2c0cY4f11Zb1ccWe3a1e9958833").unwrap_err(), GuidError::WrongPartCount);
}

#[test]
fn fixed_layout_refuses_short_or_bad_text() {
    assert!(Guid::parse_fixed("3970f9cf-2c0c-4f11-b1cc-e3a1e99588").is_none());
    assert!(Guid::parse_fixed("3970f9cg-2c0c-4f11-b1cc-e3a1e9958833").is_none());
    assert!(Guid::parse_fixed("").is_none());
}

#[test]
fn a_plus_sign_is_read_as_from_str_radix_reads_it() {
    let g = Guid::parse_checked("+970f9cf-+c0c-4f11-b1cc-e3a1e9958833").unwrap();
    assert_eq!(g.data1, 0x970f9cf);
    assert_eq!(g.data2, 0xc0c);
    assert!(Guid::parse_fixed("+970f9cf-2c0c-4f11-+1cc-e3a1e9958833").is_some());
    assert_eq!(Guid::parse_checked("-970f9cf-2c0c-4f11-b1cc-e3a1e9958833").unwrap_err(), GuidError::WrongPartCount);
}

#[test]
fn checked_layout_errors_in_order() {
    assert_eq!(Guid::parse_checked("3970f9cf").unwrap_err(), GuidError::WrongPartCount);
    assert_eq!(Guid::parse_checked("a-b-c-d-e-f").unwrap_err(), GuidError::WrongPartCount);
    assert_eq!(
        Guid::parse_checked("3970f9c-2c0c-4f11-b1cc-e3a1e9958833").unwrap_err(),
        GuidError::PartLength { part: 1, digits: 8 }
    );
    assert_eq!(
        Guid::parse_checked("3970f9cf-2c0-4f11-b1cc-e3a1e9958833").unwrap_err(),
        GuidError::PartLength { part: 2, digits: 4 }
    );
    assert_eq!(
        Guid::parse_checked("3970f9cf-2c0c-4f1-b1cc-e3a1e9958833").unwrap_err(),
        GuidError::PartLength { part: 3, digits: 4 }
    );
    assert_eq!(
        Guid::parse_checked("3970f9cf-2c0c-4f11-b1c-e3a1e9958833").unwrap_err(),
        GuidError::PartLength { part: 4, digits: 4 }
    );
    assert_eq!(
        Guid::parse_checked("3970f9cf-2c0c-4f11-b1cc-e3a1e995883").unwrap_err(),
        GuidError::PartLength { part: 5, digits: 12 }
    );
    assert_eq!(
        Guid::parse_checked("3970f9cz-2c0c-4f11-b1cc-e3a1e9958833").unwrap_err(),
        GuidError::NotHexDigits
    );
    assert_eq!(
        Guid::parse_checked("3970f9cf-2c0c-4f11-b1cc-e3a1e99588zz").unwrap_err(),
        GuidError::NotHexDigits
    );
}

#[test]
fn a_cut_through_a_character_is_reported() {
    // 'é' takes two bytes; the pair 0..2 of the last part ends inside it.
    assert_eq!(
        Guid::parse_checked("3970f9cf-2c0c-4f11-b1cc-aé345678901").unwrap_err(),
        GuidError::NotCharBoundary
    );
    // Here the pair 0..2 is the whole character, which is no digit.
    assert_eq!(
        Guid::parse_checked("3970f9cf-2c0c-4f11-b1cc-éa345678901").unwrap_err(),
        GuidError::NotHexDigits
    );
    assert!(Guid::parse_fixed("3970f9cf-2c0c-4f11-b1cc-aé345678901").is_none());
}

#[test]
fn canonical_text_is_given_back_in_lower_case() {
    let text = "3970F9CF-2C0C-4F11-B1CC-E3A1E9958833";
    let g = Guid::parse_checked(text).unwrap();
    let d = g.data4;
    let written = format!(
        "{:08x}-{:04x}-{:04x}-{:02x}{:02x}-{:02x}{:02x}{:02x}{:02x}{:02x}{:02x}",
        g.data1, g.data2, g.data3, d[0], d[1], d[2], d[3], d[4], d[5], d[6], d[7]
    );
    assert_eq!(written, text.to_ascii_lowercase());
}
