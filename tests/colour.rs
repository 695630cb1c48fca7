use gws::colour::int_text;
use gws::colour::parse_style;
use gws::colour::u8_hex;
use gws::colour::Colour;
use gws::colour::ColourConfig;
use gws::colour::ConfigValue;
use gws::config::ConfigError;

fn invalid(m: &str) -> ConfigError {
    ConfigError::InvalidConfig(m.to_string())
}

#[test]
fn integers_are_fixed_colours() {
    assert_eq!(ColourConfig::from(&ConfigValue::Integer(13)), Ok(ColourConfig::Fixed(13)));
    assert_eq!(parse_style(&ConfigValue::Integer(255)), Ok(Colour::Fixed(255)));
    assert_eq!(
        ColourConfig::from(&ConfigValue::Integer(300)),
        Err(invalid("Palette value out of range [0, 255]: 300"))
    );
    assert_eq!(
        ColourConfig::from(&ConfigValue::Integer(-7)),
        Err(invalid("Palette value out of range [0, 255]: -7"))
    );
}

#[test]
fn arrays_of_three_integers_are_rgb() {
    let rgb = |r, g, b| {
        ConfigValue::Array(vec![
            ConfigValue::Integer(r),
            ConfigValue::Integer(g),
            ConfigValue::Integer(b),
        ])
    };
    assert_eq!(parse_style(&rgb(255, 0x64, 0x2b)), Ok(Colour::RGB(0xff, 0x64, 0x2b)));
    assert_eq!(
        ColourConfig::from(&rgb(1, 256, 3)),
        Err(invalid("RGB value out of range [0, 255]: (1, 256, 3)"))
    );
    assert_eq!(
        ColourConfig::from(&ConfigValue::Array(vec![
            ConfigValue::Integer(1),
            ConfigValue::Str("x".to_string()),
            ConfigValue::Integer(3),
        ])),
        Err(invalid("RGB value must be an array of 3 integers."))
    );
    assert_eq!(
        ColourConfig::from(&ConfigValue::Array(vec![ConfigValue::Integer(1)])),
        Err(invalid("Colour definition must be string, u8 or array of 3 integers."))
    );
    assert_eq!(
        ColourConfig::from(&ConfigValue::Other),
        Err(invalid("Colour definition must be string, u8 or array of 3 integers."))
    );
}

#[test]
fn strings_are_names_or_hex_codes() {
    assert_eq!(parse_style(&ConfigValue::Str("green".to_string())), Ok(Colour::Green));
    assert_eq!(parse_style(&ConfigValue::Str("purple".to_string())), Ok(Colour::Purple));
    assert_eq!(
        parse_style(&ConfigValue::Str("mauve".to_string())),
        Err(invalid("Unsupported colour name: mauve"))
    );
    assert_eq!(
        parse_style(&ConfigValue::Str("#ff642B".to_string())),
        Ok(Colour::RGB(0xff, 0x64, 0x2b))
    );
    assert_eq!(
        parse_style(&ConfigValue::Str("#ff64".to_string())),
        Err(invalid("Invalid hex colour code: #ff64"))
    );
    assert_eq!(
        parse_style(&ConfigValue::Str("#gg0000".to_string())),
        Err(invalid("Invalid hex colour code: #gg0000"))
    );
}

#[test]
fn hex_bytes_read_like_from_str_radix() {
    assert_eq!(u8_hex('f', 'f'), Some(255));
    assert_eq!(u8_hex('0', 'A'), Some(10));
    assert_eq!(u8_hex('+', 'f'), Some(15));
    assert_eq!(u8_hex('-', '1'), None);
    assert_eq!(u8_hex('z', '1'), None);
}

#[test]
fn integers_are_written_in_decimal() {
    assert_eq!(int_text(0), "0");
    assert_eq!(int_text(9), "9");
    assert_eq!(int_text(10), "10");
    assert_eq!(int_text(-7), "-7");
    assert_eq!(int_text(i64::MAX), "9223372036854775807");
    assert_eq!(int_text(i64::MIN), "-9223372036854775808");
}
