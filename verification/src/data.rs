//! The values that the crate works on: points, colors and errors, and the
//! trait by which a graph gets its data.

use vstd::prelude::*;

verus! {

/// A point in time when a data point was emitted.
pub type Time = u32;

/// The value of one channel of a data point.
pub type Value = u16;

/// What can go wrong in the crate.
#[derive(Clone, Debug, PartialEq, Eq)]
pub enum Error {
    /// An error described by a `String`.
    String(String),
    /// A point was offered whose time does not exceed the latest time that
    /// the store has taken in.
    InvalidOrder,
    /// A point was offered whose number of values differs from the number of
    /// channels that the store was made for.
    ChannelMismatch,
    /// The renderer was handed a patch that its buffer or its colors do not fit.
    RenderInvariantViolation,
}

impl Error {
    /// A short description of the error, for messages and logs.
    pub fn message(&self) -> (s: String)
        ensures
            self matches Error::String(m) ==> s@ == m@,
            *self == Error::InvalidOrder ==> s@ == "t <= last_t"@,
            *self == Error::ChannelMismatch ==> s@ == "vs.len() != val_len"@,
            *self == Error::RenderInvariantViolation ==> s@ == "patch does not fit"@,
    {
        match self {
            Error::String(m) => m.clone(),
            Error::InvalidOrder => "t <= last_t".to_owned(),
            Error::ChannelMismatch => "vs.len() != val_len".to_owned(),
            Error::RenderInvariantViolation => "patch does not fit".to_owned(),
        }
    }
}

/// A data point on a graph.
#[derive(Debug, Clone)]
pub struct Point {
    /// The time when this data point was emitted.
    pub t: Time,
    /// The values this point holds, one per channel.
    pub vs: Vec<Value>,
}

impl Point {
    /// Return the time when this data point was emitted.
    pub fn t(&self) -> (t: Time)
        ensures
            t == self.t,
    {
        self.t
    }

    /// Return the values that this point holds.
    pub fn vals(&self) -> (vs: &[Value])
        ensures
            vs@ == self.vs@,
    {
        self.vs.as_slice()
    }
}

/// A color in RGB format.
///
/// The tuple values are the red, green, and blue components of the
/// color respectively.
#[derive(Clone, Copy, Debug, PartialEq, Eq, Structural)]
pub struct Color(pub u8, pub u8, pub u8);

impl Color {
    /// Create a color from red, green, and blue components.
    pub fn from_rgb(r: u8, g: u8, b: u8) -> (c: Color)
        ensures
            c == Color(r, g, b),
    {
        Color(r, g, b)
    }

    /// Return the red component of the `Color`.
    pub fn r(&self) -> (r: u8)
        ensures
            r == self.0,
    {
        self.0
    }

    /// Return the green component of the `Color`.
    pub fn g(&self) -> (g: u8)
        ensures
            g == self.1,
    {
        self.1
    }

    /// Return the blue component of the `Color`.
    pub fn b(&self) -> (b: u8)
        ensures
            b == self.2,
    {
        self.2
    }
}

/// The colors that a data source shows its values in unless it names its
/// own: red, green and blue.
pub open spec fn default_palette() -> Seq<Color> {
    seq![Color(255u8, 0u8, 0u8), Color(0u8, 255u8, 0u8), Color(0u8, 0u8, 255u8)]
}

/// The colors that a data source shows its values in unless it names its own.
pub fn default_colors() -> (cols: Vec<Color>)
    ensures
        cols@ == default_palette(),
{
    let mut cols: Vec<Color> = Vec::new();
    cols.push(Color(255u8, 0u8, 0u8));
    cols.push(Color(0u8, 255u8, 0u8));
    cols.push(Color(0u8, 0u8, 255u8));
    assert(cols@ =~= default_palette());
    cols
}

/// Implement this to get your own data into a `Graph`.
pub trait DataSource {
    /// Return whatever points you have available when this method is called.
    ///
    /// Each point must have a `t` field greater than the previous point.
    ///
    /// Each point must have a `vs` field with length equal to the
    /// value returned by `get_num_values`.
    ///
    /// This is currently called once a frame.
    fn get_data(&mut self) -> Result<Vec<Point>, Error>;

    /// The number of values that each Point will have.
    fn get_num_values(&self) -> Result<usize, Error>;

    /// Return the colors you want to use to display each value of the graph.
    ///
    /// Some sample colors are returned by default.
    ///
    /// If you don't supply enough colors for the number of values
    /// returned, these colors will be repeated.
    fn get_colors(&self) -> (r: Result<Vec<Color>, Error>)
        ensures
            !self.names_colors() ==> r is Ok && r->Ok_0@ == default_palette(),
    {
        Ok(default_colors())
    }

    /// Whether this source names the colors to display its values in. A
    /// source that names none is displayed in the sample colors.
    open spec fn names_colors(&self) -> bool {
        false
    }
}

} // verus!
