use off_rs::geometry::color::{Channel, Color, Error};
use off_rs::geometry::decimal::Decimal;
use off_rs::geometry::position::{Error as PositionError, Position};

fn num(s: &str) -> Decimal {
    Decimal::parse(s).unwrap()
}

fn num_f32(d: &Decimal) -> f32 {
    if d.digits.is_empty() {
        return 0.0;
    }
    let digits: String = d.digits.iter().map(|x| char::from(b'0' + *x)).collect();
    let sign = if d.negative { "-" } else { "" };
    format!("{}{}e{}", sign, digits, d.exponent).parse().unwrap()
}

fn channel_f32(c: &Channel) -> f32 {
    match c {
        Channel::Decimal(d) => num_f32(d),
        Channel::Byte(b) => f32::from(*b) / 255.0,
    }
}

fn ch(s: &str) -> Channel {
    Channel::Decimal(num(s))
}

fn rgba(r: &str, g: &str, b: &str, a: &str) -> Result<Color, Error> {
    Color::new(ch(r), ch(g), ch(b), ch(a))
}

#[test]
fn color() {
    let color = rgba("0.1", "0.2", "0.3", "0.4").unwrap();
    assert_eq!(channel_f32(&color.red), 0.1);
    assert_eq!(channel_f32(&color.green), 0.2);
    assert_eq!(channel_f32(&color.blue), 0.3);
    assert_eq!(channel_f32(&color.alpha), 0.4);
}

#[test]
fn color_fail() {
    let color = rgba("1.0", "2.0", "3.0", "4.0");
    assert!(matches!(color, Err(Error::FromF32(_))));
}

#[test]
fn color_from() {
    let color = rgba("0.1", "0.2", "0.3", "0.4").unwrap();
    let values: Vec<f32> = color.to_channels().iter().map(channel_f32).collect();
    assert_eq!(values, vec![0.1, 0.2, 0.3, 0.4]);
}

#[test]
fn color_from_u8() {
    let color = rgba("0.5", "0.7", "0.0", "0.33331").unwrap();
    assert_eq!(color.to_bytes(), Ok(vec![128, 179, 0, 85]));
}

#[test]
fn color_from_u8_fail() {
    let color = Color { red: ch("1.0"), green: ch("2.0"), blue: ch("3.0"), alpha: ch("4.0") };
    assert!(matches!(color.to_bytes(), Err(Error::ToU8(_))));
}

#[test]
fn try_from_color_rgb() {
    let color = Color::from_decimals(vec![num("0.1"), num("0.2"), num("0.3"), num("0.4")]);
    assert!(color.is_ok());
    assert_eq!(color.unwrap(), rgba("0.1", "0.2", "0.3", "0.4").unwrap());
}

#[test]
fn try_from_color_rgba() {
    let color = Color::from_decimals(vec![num("0.1"), num("0.2"), num("0.3"), num("0.4")]);
    assert!(color.is_ok());
    assert_eq!(color.unwrap(), rgba("0.1", "0.2", "0.3", "0.4").unwrap());
}

#[test]
fn try_from_color_three_values_is_opaque() {
    let color = Color::from_decimals(vec![num("0.1"), num("0.2"), num("0.3")]).unwrap();
    assert_eq!(color, rgba("0.1", "0.2", "0.3", "1").unwrap());
}

#[test]
fn try_from_color_err_too_little_arguments() {
    let color = Color::from_decimals(vec![num("1.0"), num("2.0")]);
    assert!(color.is_err());
    assert!(matches!(color.unwrap_err(), Error::FromF32(_)));
}

#[test]
fn try_from_color_err_too_many_arguments() {
    let color =
        Color::from_decimals(vec![num("1.0"), num("2.0"), num("3.0"), num("4.0"), num("5.0")]);
    assert!(color.is_err());
    assert!(matches!(color.unwrap_err(), Error::FromF32(_)));
}

#[test]
fn try_from_color_u8() {
    let color = Color::from_bytes(&vec![128, 255, 0, 255]);
    assert!(color.is_ok());
    let values: Vec<f32> = color.unwrap().to_channels().iter().map(channel_f32).collect();
    assert_eq!(values, vec![0.501_960_8, 1.0, 0.0, 1.0]);
}

#[test]
fn from_bytes_defaults_alpha_and_checks_length() {
    let color = Color::from_bytes(&vec![1, 2, 3]).unwrap();
    assert_eq!(color.alpha, Channel::Byte(255));
    assert!(matches!(Color::from_bytes(&vec![1, 2]), Err(Error::FromU8(_))));
    assert!(matches!(Color::from_bytes(&vec![1, 2, 3, 4, 5]), Err(Error::FromU8(_))));
}

#[test]
fn bytes_round_trip_within_one_step() {
    let samples = ["0", "1", "0.1", "0.5", "0.7", "0.33331", "0.999", "0.001", "0.00196", "1e-3"];
    for s in samples.iter() {
        let color = rgba(s, s, s, s).unwrap();
        let bytes = color.to_bytes().unwrap();
        let back = Color::from_bytes(&bytes).unwrap();
        let value = f64::from(num_f32(&num(s)));
        for c in back.to_channels().iter() {
            let Channel::Byte(b) = c else { panic!("byte channel expected") };
            assert!((value - f64::from(*b) / 255.0).abs() <= 1.0 / 255.0 + 1e-7, "{}", s);
        }
    }
    let bytes = Color::from_bytes(&vec![7, 128, 0, 255]).unwrap().to_bytes().unwrap();
    assert_eq!(bytes, vec![7, 128, 0, 255]);
}

#[test]
fn to_bytes_rounds_halves_up() {
    let color = rgba("0.1", "0.3", "0.5", "0.9").unwrap();
    assert_eq!(color.to_bytes(), Ok(vec![26, 77, 128, 230]));
    let tiny = rgba("0.0019", "0.0020", "1", "0").unwrap();
    assert_eq!(tiny.to_bytes(), Ok(vec![0, 1, 255, 0]));
}

#[test]
fn position() {
    let pos = Position::new(num("1.0"), num("2.0"), num("3.0"));
    assert_eq!(num_f32(&pos.x), 1.0);
    assert_eq!(num_f32(&pos.y), 2.0);
    assert_eq!(num_f32(&pos.z), 3.0);
}

#[test]
fn position_from() {
    let pos = Position::new(num("1.0"), num("2.0"), num("3.0"));
    let values: Vec<f32> = pos.to_coords().iter().map(num_f32).collect();
    assert_eq!(values, vec![1.0, 2.0, 3.0]);
}

#[test]
fn try_from_positiom() {
    let position = Position::from_coords(vec![num("1.0"), num("2.0"), num("3.0")]);
    assert!(position.is_ok());
    assert_eq!(position.unwrap(), Position::new(num("1.0"), num("2.0"), num("3.0")));
}

#[test]
fn try_from_positiom_too_little_arguments() {
    let position = Position::from_coords(vec![num("1.0"), num("2.0")]);
    assert!(position.is_err());
    assert!(matches!(position.unwrap_err(), PositionError::FromF32(_)));
}

#[test]
fn try_from_positiom_too_many_arguments() {
    let position = Position::from_coords(vec![num("1.0"), num("2.0"), num("3.0"), num("4.0")]);
    assert!(position.is_err());
    assert!(matches!(position.unwrap_err(), PositionError::FromF32(_)));
}

#[test]
fn decimals_are_canonical() {
    assert_eq!(num("1.0"), num("1"));
    assert_eq!(num("0.5e1"), num("5"));
    assert_eq!(num("-0.000"), num("0"));
    assert_eq!(num("+.25"), num("25e-2"));
    assert_eq!(num("1.632993").digits, vec![1, 6, 3, 2, 9, 9, 3]);
    assert_eq!(num("1.632993").exponent, -6);
    assert_eq!(num("1200").digits, vec![1, 2]);
    assert_eq!(num("1200").exponent, 2);
    assert!(num("-3").negative);
    for bad in ["", ".", "-", "1e", "e5", "1.2.3", "1e+", "nan", "inf", "0x10", "1 2", "--1"].iter() {
        assert_eq!(Decimal::parse(bad), None, "{:?}", bad);
    }
    for good in ["5.", ".5", "-1E-7", "6.02e23", "+0", "007.50"].iter() {
        let d = Decimal::parse(good).unwrap();
        assert_eq!(num_f32(&d), good.parse::<f32>().unwrap(), "{:?}", good);
    }
}

#[test]
fn unit_interval_check() {
    for inside in ["0", "-0", "1", "1.000", "0.5", "1e-9", "0.999999"].iter() {
        assert!(num(inside).is_in_unit_interval(), "{}", inside);
    }
    for outside in ["-0.1", "1.0001", "2", "10", "-1", "1e1", "1.5"].iter() {
        assert!(!num(outside).is_in_unit_interval(), "{}", outside);
    }
}
