use vstd::prelude::*;
use vstd::string::StrSliceExecFns;
use vstd::string::StringExecFns;

use crate::config::ConfigError;

verus! {

/// A value of the user configuration file, as far as colour definitions
/// read it.
pub enum ConfigValue {
    Str(String),
    Integer(i64),
    Array(Vec<ConfigValue>),
    Other,
}

/// A colour definition of the palette configuration.
#[derive(Debug, PartialEq, Eq)]
pub enum ColourConfig {
    Fixed(u8),
    Hex(String),
    Named(String),
    RGB(u8, u8, u8),
}

/// A terminal colour.
#[derive(Clone, Copy, Debug, PartialEq, Eq, Structural)]
pub enum Colour {
    Black,
    Red,
    Green,
    Yellow,
    Blue,
    Purple,
    Cyan,
    White,
    Fixed(u8),
    RGB(u8, u8, u8),
}

pub open spec fn digit_char(d: nat) -> char {
    (48 + d) as char
}

/// Decimal digits of `n`.
pub open spec fn digits(n: nat) -> Seq<char>
    decreases n,
{
    if n < 10 {
        seq![digit_char(n)]
    } else {
        digits(n / 10).push(digit_char(n % 10))
    }
}

/// Decimal notation of `n`, with `-` before a negative number.
pub open spec fn decimal(n: int) -> Seq<char> {
    if n < 0 {
        seq!['-'] + digits((-n) as nat)
    } else {
        digits(n as nat)
    }
}

/// The decimal digit `d`.
fn digit_text(d: u64) -> (r: &'static str)
    requires
        d < 10,
    ensures
        r@ == seq![digit_char(d as nat)],
{
    proof {
        reveal_strlit("0");
        reveal_strlit("1");
        reveal_strlit("2");
        reveal_strlit("3");
        reveal_strlit("4");
        reveal_strlit("5");
        reveal_strlit("6");
        reveal_strlit("7");
        reveal_strlit("8");
        reveal_strlit("9");
    }
    if d == 0 {
        "0"
    } else if d == 1 {
        "1"
    } else if d == 2 {
        "2"
    } else if d == 3 {
        "3"
    } else if d == 4 {
        "4"
    } else if d == 5 {
        "5"
    } else if d == 6 {
        "6"
    } else if d == 7 {
        "7"
    } else if d == 8 {
        "8"
    } else {
        "9"
    }
}

/// The decimal digits of `m`.
fn digits_text(m: u64) -> (r: String)
    ensures
        r@ == digits(m as nat),
    decreases m,
{
    if m < 10 {
        digit_text(m).to_owned()
    } else {
        let mut t = digits_text(m / 10);
        t.append(digit_text(m % 10));
        t
    }
}

/// Decimal notation of `n`, with `-` before a negative number.
pub fn int_text(n: i64) -> (r: String)
    ensures
        r@ == decimal(n as int),
{
    if n < 0 {
        let magnitude: u64 = if n == i64::MIN {
            9223372036854775808u64
        } else {
            (-n) as u64
        };
        let mut t = "-".to_owned();
        proof {
            reveal_strlit("-");
        }
        t.append(digits_text(magnitude).as_str());
        t
    } else {
        digits_text(n as u64)
    }
}

pub open spec fn is_u8(v: i64) -> bool {
    0 <= v <= 255
}

pub fn in_range_inclusive(value: i64, min: i64, max: i64) -> (r: bool)
    ensures
        r == (min <= value <= max),
{
    value >= min && value <= max
}

pub fn is_u8_value(value: i64) -> (r: bool)
    ensures
        r == is_u8(value),
{
    in_range_inclusive(value, 0, 255)
}

pub open spec fn rgb_text(r: i64, g: i64, b: i64) -> Seq<char> {
    "RGB value out of range [0, 255]: ("@ + decimal(r as int) + ", "@ + decimal(g as int) + ", "@
        + decimal(b as int) + ")"@
}

/// The colour definition that a configuration value gives.
pub open spec fn colour_config_of(v: ConfigValue) -> Result<ColourConfig, Seq<char>> {
    match v {
        ConfigValue::Str(name) => if name@.len() > 0 && name@[0] == '#' {
            Ok(ColourConfig::Hex(name))
        } else {
            Ok(ColourConfig::Named(name))
        },
        ConfigValue::Integer(n) => if is_u8(n) {
            Ok(ColourConfig::Fixed(n as u8))
        } else {
            Err("Palette value out of range [0, 255]: "@ + decimal(n as int))
        },
        ConfigValue::Array(items) => if items@.len() == 3 {
            match (items@[0], items@[1], items@[2]) {
                (ConfigValue::Integer(r), ConfigValue::Integer(g), ConfigValue::Integer(b)) => {
                    if is_u8(r) && is_u8(g) && is_u8(b) {
                        Ok(ColourConfig::RGB(r as u8, g as u8, b as u8))
                    } else {
                        Err(rgb_text(r, g, b))
                    }
                },
                _ => Err("RGB value must be an array of 3 integers."@),
            }
        } else {
            Err("Colour definition must be string, u8 or array of 3 integers."@)
        },
        ConfigValue::Other => Err("Colour definition must be string, u8 or array of 3 integers."@),
    }
}

/// `e` is the configuration error with message `m`.
pub open spec fn is_invalid_config(e: ConfigError, m: Seq<char>) -> bool {
    e matches ConfigError::InvalidConfig(t) && t@ == m
}

pub open spec fn hex_digit_value(c: char) -> Option<nat> {
    if '0' <= c <= '9' {
        Some((c as int - '0' as int) as nat)
    } else if 'a' <= c <= 'f' {
        Some((c as int - 'a' as int + 10) as nat)
    } else if 'A' <= c <= 'F' {
        Some((c as int - 'A' as int + 10) as nat)
    } else {
        None
    }
}

/// The byte that two characters denote in base 16, read as
/// `u8::from_str_radix` reads them: two hex digits, or `+` and one digit.
pub open spec fn hex_byte(a: char, b: char) -> Option<u8> {
    match (hex_digit_value(a), hex_digit_value(b)) {
        (Some(x), Some(y)) => Some((16 * x + y) as u8),
        (None, Some(y)) => if a == '+' {
            Some(y as u8)
        } else {
            None
        },
        _ => None,
    }
}

fn hex_digit(c: char) -> (r: Option<u8>)
    ensures
        match hex_digit_value(c) {
            Some(v) => r == Some(v as u8),
            None => r is None,
        },
{
    if '0' <= c && c <= '9' {
        Some(((c as u32) - ('0' as u32)) as u8)
    } else if 'a' <= c && c <= 'f' {
        Some(((c as u32) - ('a' as u32) + 10) as u8)
    } else if 'A' <= c && c <= 'F' {
        Some(((c as u32) - ('A' as u32) + 10) as u8)
    } else {
        None
    }
}

/// The byte written as two base-16 characters.
pub fn u8_hex(a: char, b: char) -> (r: Option<u8>)
    ensures
        r == hex_byte(a, b),
{
    match (hex_digit(a), hex_digit(b)) {
        (Some(x), Some(y)) => Some(16 * x + y),
        (None, Some(y)) => if a == '+' {
            Some(y)
        } else {
            None
        },
        _ => None,
    }
}

/// The colour of a `#rrggbb` code.
pub open spec fn hex_colour(h: Seq<char>) -> Option<Colour> {
    if h.len() == 7 {
        match (hex_byte(h[1], h[2]), hex_byte(h[3], h[4]), hex_byte(h[5], h[6])) {
            (Some(r), Some(g), Some(b)) => Some(Colour::RGB(r, g, b)),
            _ => None,
        }
    } else {
        None
    }
}

/// The colour that a colour name stands for.
pub open spec fn named_colour(n: Seq<char>) -> Option<Colour> {
    if n == "black"@ {
        Some(Colour::Black)
    } else if n == "red"@ {
        Some(Colour::Red)
    } else if n == "green"@ {
        Some(Colour::Green)
    } else if n == "yellow"@ {
        Some(Colour::Yellow)
    } else if n == "blue"@ {
        Some(Colour::Blue)
    } else if n == "purple"@ {
        Some(Colour::Purple)
    } else if n == "cyan"@ {
        Some(Colour::Cyan)
    } else if n == "white"@ {
        Some(Colour::White)
    } else {
        None
    }
}

fn str_eq(a: &str, b: &str) -> (r: bool)
    ensures
        r == (a@ == b@),
{
    let n = a.unicode_len();
    if n != b.unicode_len() {
        return false;
    }
    let mut i: usize = 0;
    while i < n
        invariant
            n == a@.len(),
            n == b@.len(),
            i <= n,
            a@.subrange(0, i as int) == b@.subrange(0, i as int),
        decreases n - i,
    {
        if a.get_char(i) != b.get_char(i) {
            assert(a@[i as int] != b@[i as int]);
            return false;
        }
        assert(a@.subrange(0, i as int + 1) =~= a@.subrange(0, i as int).push(a@[i as int]));
        assert(b@.subrange(0, i as int + 1) =~= b@.subrange(0, i as int).push(b@[i as int]));
        i = i + 1;
    }
    assert(a@ =~= a@.subrange(0, n as int));
    assert(b@ =~= b@.subrange(0, n as int));
    true
}

impl ColourConfig {
    /// Reads a colour definition: a string (`#rrggbb` or a colour name), an
    /// integer in `[0, 255]`, or an array of three such integers.
    pub fn from(v: &ConfigValue) -> (r: Result<ColourConfig, ConfigError>)
        ensures
            match colour_config_of(*v) {
                Ok(c) => r == Ok::<ColourConfig, ConfigError>(c),
                Err(m) => (r matches Err(e) && is_invalid_config(e, m)),
            },
    {
        match v {
            ConfigValue::Str(name) => {
                if name.as_str().unicode_len() > 0 && name.as_str().get_char(0) == '#' {
                    Ok(ColourConfig::Hex(name.clone()))
                } else {
                    Ok(ColourConfig::Named(name.clone()))
                }
            },
            ConfigValue::Integer(fixed) => {
                if is_u8_value(*fixed) {
                    Ok(ColourConfig::Fixed(*fixed as u8))
                } else {
                    let mut m = "Palette value out of range [0, 255]: ".to_owned();
                    m.append(int_text(*fixed).as_str());
                    Err(ConfigError::InvalidConfig(m))
                }
            },
            ConfigValue::Array(rgb) => {
                if rgb.len() == 3 {
                    match (&rgb[0], &rgb[1], &rgb[2]) {
                        (ConfigValue::Integer(r), ConfigValue::Integer(g), ConfigValue::Integer(b)) => {
                            if is_u8_value(*r) && is_u8_value(*g) && is_u8_value(*b) {
                                Ok(ColourConfig::RGB(*r as u8, *g as u8, *b as u8))
                            } else {
                                let mut m = "RGB value out of range [0, 255]: (".to_owned();
                                m.append(int_text(*r).as_str());
                                m.append(", ");
                                m.append(int_text(*g).as_str());
                                m.append(", ");
                                m.append(int_text(*b).as_str());
                                m.append(")");
                                Err(ConfigError::InvalidConfig(m))
                            }
                        },
                        _ => Err(
                            ConfigError::InvalidConfig(
                                "RGB value must be an array of 3 integers.".to_owned(),
                            ),
                        ),
                    }
                } else {
                    Err(
                        ConfigError::InvalidConfig(
                            "Colour definition must be string, u8 or array of 3 integers.".to_owned(),
                        ),
                    )
                }
            },
            ConfigValue::Other => Err(
                ConfigError::InvalidConfig(
                    "Colour definition must be string, u8 or array of 3 integers.".to_owned(),
                ),
            ),
        }
    }

    /// The colour that the definition names.
    pub fn make_style(&self) -> (r: Result<Colour, ConfigError>)
        ensures
            match self {
                ColourConfig::Fixed(n) => r == Ok::<Colour, ConfigError>(Colour::Fixed(*n)),
                ColourConfig::RGB(x, y, z) => r == Ok::<Colour, ConfigError>(Colour::RGB(*x, *y, *z)),
                ColourConfig::Hex(h) => match hex_colour(h@) {
                    Some(c) => r == Ok::<Colour, ConfigError>(c),
                    None => (r matches Err(e) && is_invalid_config(e, "Invalid hex colour code: "@ + h@)),
                },
                ColourConfig::Named(n) => match named_colour(n@) {
                    Some(c) => r == Ok::<Colour, ConfigError>(c),
                    None => (r matches Err(e) && is_invalid_config(e, "Unsupported colour name: "@ + n@)),
                },
            },
    {
        match self {
            ColourConfig::Fixed(value) => Ok(Colour::Fixed(*value)),
            ColourConfig::RGB(r, g, b) => Ok(Colour::RGB(*r, *g, *b)),
            ColourConfig::Hex(hex) => {
                let h = hex.as_str();
                if h.unicode_len() == 7 {
                    let r = u8_hex(h.get_char(1), h.get_char(2));
                    let g = u8_hex(h.get_char(3), h.get_char(4));
                    let b = u8_hex(h.get_char(5), h.get_char(6));
                    match (r, g, b) {
                        (Some(r), Some(g), Some(b)) => {
                            return Ok(Colour::RGB(r, g, b));
                        },
                        _ => {},
                    }
                }
                let mut m = "Invalid hex colour code: ".to_owned();
                m.append(h);
                Err(ConfigError::InvalidConfig(m))
            },
            ColourConfig::Named(name) => {
                let n = name.as_str();
                proof {
                    reveal_strlit("black");
                    reveal_strlit("red");
                    reveal_strlit("green");
                    reveal_strlit("yellow");
                    reveal_strlit("blue");
                    reveal_strlit("purple");
                    reveal_strlit("cyan");
                    reveal_strlit("white");
                }
                if str_eq(n, "black") {
                    Ok(Colour::Black)
                } else if str_eq(n, "red") {
                    Ok(Colour::Red)
                } else if str_eq(n, "green") {
                    Ok(Colour::Green)
                } else if str_eq(n, "yellow") {
                    Ok(Colour::Yellow)
                } else if str_eq(n, "blue") {
                    Ok(Colour::Blue)
                } else if str_eq(n, "purple") {
                    Ok(Colour::Purple)
                } else if str_eq(n, "cyan") {
                    Ok(Colour::Cyan)
                } else if str_eq(n, "white") {
                    Ok(Colour::White)
                } else {
                    let mut m = "Unsupported colour name: ".to_owned();
                    m.append(n);
                    Err(ConfigError::InvalidConfig(m))
                }
            },
        }
    }
}

/// The colour of a palette entry of the configuration.
pub fn parse_style(v: &ConfigValue) -> (r: Result<Colour, ConfigError>)
    ensures
        colour_config_of(*v) matches Err(m) ==> (r matches Err(e) && is_invalid_config(e, m)),
        colour_config_of(*v) matches Ok(ColourConfig::Fixed(n)) ==> r == Ok::<Colour, ConfigError>(Colour::Fixed(n)),
        colour_config_of(*v) matches Ok(ColourConfig::RGB(x, y, z)) ==> r == Ok::<Colour, ConfigError>(Colour::RGB(x, y, z)),
        colour_config_of(*v) matches Ok(ColourConfig::Hex(h)) ==> match hex_colour(h@) {
            Some(c) => r == Ok::<Colour, ConfigError>(c),
            None => (r matches Err(e) && is_invalid_config(e, "Invalid hex colour code: "@ + h@)),
        },
        colour_config_of(*v) matches Ok(ColourConfig::Named(n)) ==> match named_colour(n@) {
            Some(c) => r == Ok::<Colour, ConfigError>(c),
            None => (r matches Err(e) && is_invalid_config(e, "Unsupported colour name: "@ + n@)),
        },
{
    match ColourConfig::from(v) {
        Ok(c) => c.make_style(),
        Err(e) => Err(e),
    }
}

} // verus!
