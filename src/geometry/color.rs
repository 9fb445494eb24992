//! Colors: four channels in the unit interval.
use vstd::prelude::*;

use crate::geometry::decimal::{
    in_unit_interval, is_canonical, halves, lemma_mantissa_below, lemma_pow10_positive, mantissa,
    pow10, unit_byte,
    Decimal, DecimalModel,
};

verus! {

/// Why a color could not be made or converted.
#[derive(Clone, Debug, PartialEq, Eq)]
pub enum Error {
    /// Decimal channels were out of range, or not three or four of them.
    FromF32(String),
    /// Byte channels were not three or four.
    FromU8(String),
    /// A channel was out of range when converting to bytes.
    ToU8(String),
}

/// One channel of a color: a decimal, or a byte `k` that stands for `k / 255`.
#[derive(Debug, PartialEq, Eq)]
pub enum Channel {
    Decimal(Decimal),
    Byte(u8),
}

/// The model of a channel.
pub enum ChannelModel {
    Decimal(DecimalModel),
    Byte(u8),
}

impl View for Channel {
    type V = ChannelModel;

    open spec fn view(&self) -> ChannelModel {
        match self {
            Channel::Decimal(d) => ChannelModel::Decimal(d@),
            Channel::Byte(b) => ChannelModel::Byte(*b),
        }
    }
}

impl Clone for Channel {
    fn clone(&self) -> (r: Self)
        ensures
            r@ == self@,
    {
        match self {
            Channel::Decimal(d) => Channel::Decimal(d.copy()),
            Channel::Byte(b) => Channel::Byte(*b),
        }
    }
}

/// Whether a channel lies in the closed interval from 0 to 1 (a byte always does).
pub open spec fn channel_in_unit(c: ChannelModel) -> bool {
    match c {
        ChannelModel::Decimal(d) => in_unit_interval(d),
        ChannelModel::Byte(_) => true,
    }
}

/// The channel 1, for an alpha that is not written.
pub open spec fn opaque_channel() -> ChannelModel {
    ChannelModel::Decimal((false, seq![1u8], 0))
}

/// A color of red, green, blue and alpha channels.
#[derive(Debug, PartialEq, Eq)]
pub struct Color {
    pub red: Channel,
    pub green: Channel,
    pub blue: Channel,
    pub alpha: Channel,
}

/// The model of a color: its four channels.
pub type ColorModel = (ChannelModel, ChannelModel, ChannelModel, ChannelModel);

impl View for Color {
    type V = ColorModel;

    open spec fn view(&self) -> ColorModel {
        (self.red@, self.green@, self.blue@, self.alpha@)
    }
}

impl Clone for Color {
    fn clone(&self) -> (r: Self)
        ensures
            r@ == self@,
    {
        Color {
            red: self.red.clone(),
            green: self.green.clone(),
            blue: self.blue.clone(),
            alpha: self.alpha.clone(),
        }
    }
}

impl Default for Color {
    /// White: every channel 1.
    fn default() -> (r: Self)
        ensures
            r@ == (opaque_channel(), opaque_channel(), opaque_channel(), opaque_channel()),
    {
        Color {
            red: Channel::Decimal(Decimal::one()),
            green: Channel::Decimal(Decimal::one()),
            blue: Channel::Decimal(Decimal::one()),
            alpha: Channel::Decimal(Decimal::one()),
        }
    }
}

/// Whether all four channels of a color lie in the unit interval.
pub open spec fn color_in_unit(c: ColorModel) -> bool {
    channel_in_unit(c.0) && channel_in_unit(c.1) && channel_in_unit(c.2) && channel_in_unit(c.3)
}

/// The model of an optional color.
pub open spec fn opt_color(c: Option<Color>) -> Option<ColorModel> {
    match c {
        Some(c) => Some(c@),
        None => None,
    }
}

/// Whether a channel's decimal, if it has one, is in canonical form.
pub open spec fn channel_canonical(c: ChannelModel) -> bool {
    match c {
        ChannelModel::Decimal(d) => is_canonical(d),
        ChannelModel::Byte(_) => true,
    }
}

/// Whether every decimal channel of a color is in canonical form.
pub open spec fn color_canonical(c: ColorModel) -> bool {
    channel_canonical(c.0) && channel_canonical(c.1) && channel_canonical(c.2) && channel_canonical(
        c.3,
    )
}

/// The byte of a channel in the unit interval: 255 times its value, rounded
/// to the nearest integer with halves rounded up.
pub open spec fn channel_byte(c: ChannelModel) -> int {
    match c {
        ChannelModel::Decimal(d) => unit_byte(d),
        ChannelModel::Byte(b) => b as int,
    }
}

/// The bytes of a color, in the order red, green, blue, alpha.
pub open spec fn color_bytes(c: ColorModel) -> Seq<u8> {
    seq![
        channel_byte(c.0) as u8,
        channel_byte(c.1) as u8,
        channel_byte(c.2) as u8,
        channel_byte(c.3) as u8,
    ]
}

/// The color that four bytes give.
pub open spec fn bytes_color(b: Seq<u8>) -> ColorModel {
    (
        ChannelModel::Byte(b[0]),
        ChannelModel::Byte(b[1]),
        ChannelModel::Byte(b[2]),
        ChannelModel::Byte(b[3]),
    )
}

/// Whether the byte `k` (standing for `k / 255`) lies within `1 / 255` of the
/// value of channel `c`.
pub open spec fn within_a_byte(c: ChannelModel, k: u8) -> bool {
    match c {
        ChannelModel::Byte(b) => b == k,
        ChannelModel::Decimal(d) => if d.2 >= 0 {
            -1 <= 255 * mantissa(d.1) * pow10(d.2 as nat) - k <= 1
        } else {
            let p = pow10((-d.2) as nat) as int;
            -p <= 255 * mantissa(d.1) - k * p <= p
        },
    }
}

/// Converting a color in the unit interval to bytes and back moves each
/// channel by at most `1 / 255`: the bytes come back as byte channels, each
/// within a byte of the channel it came from.
pub proof fn lemma_bytes_round_trip(c: ColorModel)
    requires
        color_in_unit(c),
        color_canonical(c),
    ensures
        bytes_color(color_bytes(c)) == (
            ChannelModel::Byte(color_bytes(c)[0]),
            ChannelModel::Byte(color_bytes(c)[1]),
            ChannelModel::Byte(color_bytes(c)[2]),
            ChannelModel::Byte(color_bytes(c)[3]),
        ),
        within_a_byte(c.0, color_bytes(c)[0]),
        within_a_byte(c.1, color_bytes(c)[1]),
        within_a_byte(c.2, color_bytes(c)[2]),
        within_a_byte(c.3, color_bytes(c)[3]),
{
    lemma_channel_round_trip(c.0);
    lemma_channel_round_trip(c.1);
    lemma_channel_round_trip(c.2);
    lemma_channel_round_trip(c.3);
}

/// The byte of a channel in the unit interval lies within `1 / 255` of it.
pub proof fn lemma_channel_round_trip(c: ChannelModel)
    requires
        channel_in_unit(c),
        channel_canonical(c),
    ensures
        0 <= channel_byte(c) <= 255,
        within_a_byte(c, channel_byte(c) as u8),
{
    match c {
        ChannelModel::Byte(_) => {},
        ChannelModel::Decimal(d) => {
            let m = mantissa(d.1) as int;
            if d.1.len() == 0 {
                assert(m == 0);
            } else if d.2 >= 0 {
                assert(d.1 == seq![1u8] && d.2 == 0);
                assert(d.1.drop_last() == Seq::<u8>::empty());
                assert(mantissa(Seq::<u8>::empty()) == 0);
                assert(m == 1);
                assert(pow10(0) == 1);
            } else {
                let q = (-d.2) as nat;
                let p = pow10(q) as int;
                lemma_pow10_positive(q);
                lemma_mantissa_below(d.1, q);
                let f = halves(d);
                assert(f == (510 * m) / p);
                let k = (f + 1) / 2;
                assert(f * p <= 510 * m < (f + 1) * p) by (nonlinear_arith)
                    requires
                        f == (510 * m) / p,
                        p > 0,
                        m >= 0,
                ;
                assert(0 <= f < 510) by (nonlinear_arith)
                    requires
                        f * p <= 510 * m,
                        510 * m < 510 * p,
                        p > 0,
                        m >= 0,
                        (f + 1) * p > 510 * m,
                ;
                assert(-p <= 255 * m - k * p <= p) by (nonlinear_arith)
                    requires
                        f * p <= 510 * m < (f + 1) * p,
                        k == (f + 1) / 2,
                        f >= 0,
                        p > 0,
                ;
            }
        },
    }
}

impl Channel {
    /// Whether the channel lies in the closed interval from 0 to 1.
    pub fn is_in_unit_interval(&self) -> (r: bool)
        ensures
            r == channel_in_unit(self@),
    {
        match self {
            Channel::Decimal(d) => d.is_in_unit_interval(),
            Channel::Byte(_) => true,
        }
    }

    /// The byte of a channel in the unit interval.
    pub fn to_byte(&self) -> (r: u8)
        requires
            channel_in_unit(self@),
            channel_canonical(self@),
        ensures
            r as int == channel_byte(self@),
    {
        proof {
            lemma_channel_round_trip(self@);
        }
        match self {
            Channel::Decimal(d) => d.unit_to_byte(),
            Channel::Byte(b) => *b,
        }
    }
}

impl Color {
    /// Makes a color, checking that every channel lies between 0 and 1.
    pub fn new(red: Channel, green: Channel, blue: Channel, alpha: Channel) -> (r: Result<
        Self,
        Error,
    >)
        ensures
            r is Ok <==> color_in_unit((red@, green@, blue@, alpha@)),
            r is Ok ==> r->Ok_0@ == (red@, green@, blue@, alpha@),
            r is Err ==> r->Err_0 is FromF32,
    {
        if red.is_in_unit_interval() && green.is_in_unit_interval() && blue.is_in_unit_interval()
            && alpha.is_in_unit_interval() {
            Ok(Color { red, green, blue, alpha })
        } else {
            Err(Error::FromF32("color values must be between 0 and 1".to_owned()))
        }
    }

    /// Makes a color from three or four decimal channels; a missing alpha is 1.
    pub fn from_decimals(v: Vec<Decimal>) -> (r: Result<Self, Error>)
        ensures
            r is Ok <==> {
                &&& 3 <= v.len() <= 4
                &&& color_in_unit(
                    (
                        ChannelModel::Decimal(v@[0]@),
                        ChannelModel::Decimal(v@[1]@),
                        ChannelModel::Decimal(v@[2]@),
                        if v.len() == 4 {
                            ChannelModel::Decimal(v@[3]@)
                        } else {
                            opaque_channel()
                        },
                    ),
                )
            },
            r is Ok ==> r->Ok_0@ == (
                ChannelModel::Decimal(v@[0]@),
                ChannelModel::Decimal(v@[1]@),
                ChannelModel::Decimal(v@[2]@),
                if v.len() == 4 {
                    ChannelModel::Decimal(v@[3]@)
                } else {
                    opaque_channel()
                },
            ),
            r is Err ==> r->Err_0 is FromF32,
    {
        let mut v = v;
        let n = v.len();
        if n < 3 || n > 4 {
            return Err(Error::FromF32("expected three or four color values".to_owned()));
        }
        let ghost w = v@;
        let alpha = if n == 4 {
            v.pop().unwrap()
        } else {
            Decimal::one()
        };
        let blue = v.pop().unwrap();
        let green = v.pop().unwrap();
        let red = v.pop().unwrap();
        assert(red == w[0] && green == w[1] && blue == w[2]);
        Color::new(
            Channel::Decimal(red),
            Channel::Decimal(green),
            Channel::Decimal(blue),
            Channel::Decimal(alpha),
        )
    }

    /// Makes a color from three or four byte channels; a missing alpha is 255.
    pub fn from_bytes(v: &Vec<u8>) -> (r: Result<Self, Error>)
        ensures
            r is Ok <==> 3 <= v.len() <= 4,
            r is Ok ==> r->Ok_0@ == (
                ChannelModel::Byte(v@[0]),
                ChannelModel::Byte(v@[1]),
                ChannelModel::Byte(v@[2]),
                ChannelModel::Byte(if v.len() == 4 { v@[3] } else { 255u8 }),
            ),
            r is Err ==> r->Err_0 is FromU8,
    {
        let n = v.len();
        if n < 3 || n > 4 {
            return Err(Error::FromU8("expected three or four color values".to_owned()));
        }
        let alpha = if n == 4 { v[3] } else { 255 };
        Ok(
            Color {
                red: Channel::Byte(v[0]),
                green: Channel::Byte(v[1]),
                blue: Channel::Byte(v[2]),
                alpha: Channel::Byte(alpha),
            },
        )
    }

    /// The four channels as bytes: 255 times each value, rounded to the nearest
    /// integer with halves rounded up. Fails when a channel lies outside the
    /// unit interval.
    pub fn to_bytes(&self) -> (r: Result<Vec<u8>, Error>)
        requires
            color_canonical(self@),
        ensures
            r is Ok <==> color_in_unit(self@),
            r matches Ok(b) ==> b@ == color_bytes(self@),
            r is Err ==> r->Err_0 is ToU8,
    {
        if !(self.red.is_in_unit_interval() && self.green.is_in_unit_interval()
            && self.blue.is_in_unit_interval() && self.alpha.is_in_unit_interval()) {
            return Err(Error::ToU8("color values must be between 0 and 1".to_owned()));
        }
        let mut r: Vec<u8> = Vec::new();
        r.push(self.red.to_byte());
        r.push(self.green.to_byte());
        r.push(self.blue.to_byte());
        r.push(self.alpha.to_byte());
        assert(r@ == color_bytes(self@));
        Ok(r)
    }

    /// The four channels in the order red, green, blue, alpha.
    pub fn to_channels(self) -> (r: Vec<Channel>)
        ensures
            r@.len() == 4,
            r@[0]@ == self.red@,
            r@[1]@ == self.green@,
            r@[2]@ == self.blue@,
            r@[3]@ == self.alpha@,
    {
        let mut r: Vec<Channel> = Vec::new();
        r.push(self.red);
        r.push(self.green);
        r.push(self.blue);
        r.push(self.alpha);
        r
    }
}

} // verus!
