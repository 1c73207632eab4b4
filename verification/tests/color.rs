use handterm::color::{to_rgb, HexColor};

#[test]
fn parses_valid_hex_color() {
    let c: HexColor = "#cdd6f4".parse().expect("color should parse");
    assert_eq!(c.r, 0xcd);
    assert_eq!(c.g, 0xd6);
    assert_eq!(c.b, 0xf4);
}

#[test]
fn rejects_invalid_color() {
    let err = "#zz0000"
        .parse::<HexColor>()
        .expect_err("invalid color should fail");
    assert!(err.contains("invalid red component"));
}

#[test]
fn hex_color_ignores_surrounding_whitespace_and_case() {
    let c = HexColor::parse("  #ABcdEf\n").expect("color should parse");
    assert_eq!(c, HexColor::new(0xab, 0xcd, 0xef));
}

#[test]
fn hex_color_errors_name_the_problem_and_quote_the_input() {
    assert_eq!(
        HexColor::parse(" cdd6f4 ").unwrap_err(),
        "expected #RRGGBB, got cdd6f4"
    );
    assert_eq!(
        HexColor::parse("#abc").unwrap_err(),
        "expected 6 hex digits, got #abc"
    );
    assert_eq!(
        HexColor::parse("#00zz00").unwrap_err(),
        "invalid green component in #00zz00"
    );
    assert_eq!(
        HexColor::parse("#0000zz").unwrap_err(),
        "invalid blue component in #0000zz"
    );
    // Six bytes, but not six characters: the first component is not ASCII.
    assert_eq!(
        HexColor::parse("#é1234").unwrap_err(),
        "invalid red component in #é1234"
    );
}

#[test]
fn hex_color_component_may_carry_a_plus_sign() {
    let c = HexColor::parse("#+f0a+1").expect("signed components parse");
    assert_eq!(c, HexColor::new(0x0f, 0x0a, 0x01));
}

#[test]
fn hex_color_text_roundtrips() {
    let c = HexColor::new(0x12, 0xab, 0x0f);
    assert_eq!(c.to_hex_string(), "#12ab0f");
    assert_eq!(HexColor::parse(&c.to_hex_string()), Ok(c));
    assert_eq!(c.as_u32_rgb(), 0x12ab0f);
}

#[test]
fn to_rgb_resolves_palette_cube_grey_and_packed_colours() {
    assert_eq!(to_rgb(1), 0xcc0000);
    assert_eq!(to_rgb(15), 0xeeeeec);
    assert_eq!(to_rgb(16), 0x000000);
    assert_eq!(to_rgb(231), 0xffffff);
    assert_eq!(to_rgb(16 + 36 + 6 + 1), 0x333333);
    assert_eq!(to_rgb(232), 0x080808);
    assert_eq!(to_rgb(255), 0xeeeeee);
    assert_eq!(to_rgb(0x8012_3456), 0x123456);
    assert_eq!(to_rgb(0x0000_0101), 0xcc0000);
}

#[test]
fn components_that_split_a_character_are_detected() {
    // "a" then the two-byte "é": the red component would end inside "é".
    assert!(HexColor::parse_would_panic("#aé123"));
    assert!(!HexColor::parse_would_panic("#é1234"));
    assert!(!HexColor::parse_would_panic("#zzé12"));
    assert!(HexColor::parse_would_panic("#00a€"));
    assert!(!HexColor::parse_would_panic("#00a€1"));
    assert!("#aé123".parse::<HexColor>().is_err());
}
