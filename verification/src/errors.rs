use vstd::prelude::*;

verus! {

/// Failure taxonomy of the core.  Every operation that can fail returns one
/// of these; none is caught and handled internally.
#[derive(Clone, Copy, PartialEq, Eq, Structural, Debug)]
pub enum WeatherError {
    /// A temperature, date, or persisted-row value failed to decode.
    Parse,
    /// Statistics were requested over zero readings.
    EmptyInput,
    /// A date string is not a valid calendar date, or the previous day
    /// underflows the supported calendar range.
    DateArithmetic,
    /// The store file could not be read or written.  Never produced by the
    /// in-memory core; reserved for the I/O boundary around it.
    Io,
}

impl WeatherError {
    /// Short stable name of the error, for logs and messages.
    pub fn describe(&self) -> (r: &'static str)
        ensures
            r@ == self.describe_spec(),
    {
        match self {
            WeatherError::Parse => "parse error",
            WeatherError::EmptyInput => "empty input",
            WeatherError::DateArithmetic => "date arithmetic error",
            WeatherError::Io => "io error",
        }
    }

    pub open spec fn describe_spec(&self) -> Seq<char> {
        match self {
            WeatherError::Parse => "parse error"@,
            WeatherError::EmptyInput => "empty input"@,
            WeatherError::DateArithmetic => "date arithmetic error"@,
            WeatherError::Io => "io error"@,
        }
    }
}

} // verus!
