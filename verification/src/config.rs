//! What one run is asked to do.

use vstd::prelude::*;
use crate::decimal::{parse_integer, parse_integer_spec};
use crate::error::SkewError;
use crate::text::to_chars;

verus! {

/// The file to shift and the milliseconds to shift it by.
pub struct Config {
    file_path: String,
    skew_millis: i64,
}

/// A `Config` as contracts see it.
pub ghost struct ConfigView {
    pub file_path: Seq<char>,
    pub skew_millis: int,
}

impl View for Config {
    type V = ConfigView;

    closed spec fn view(&self) -> ConfigView {
        ConfigView { file_path: self.file_path@, skew_millis: self.skew_millis as int }
    }
}

impl Config {
    /// A configuration that shifts the file at `file_path` by `skew_millis`
    /// milliseconds.
    pub fn new(file_path: String, skew_millis: i64) -> (config: Config)
        ensures
            config@ == (ConfigView { file_path: file_path@, skew_millis: skew_millis as int }),
    {
        Config { file_path, skew_millis }
    }

    /// A configuration from the two arguments as they were typed. The
    /// milliseconds are an integer with or without a sign; anything else, or
    /// an integer that an `i64` does not hold, is an invalid argument.
    pub fn from_args(file_path: String, millis: &str) -> (r: Result<Config, SkewError>)
        ensures
            match parse_integer_spec(millis@) {
                Some(skew_millis) => r is Ok && r->Ok_0@ == (ConfigView {
                    file_path: file_path@,
                    skew_millis: skew_millis as int,
                }),
                None => r is Err && r->Err_0 == SkewError::InvalidArgument,
            },
    {
        let chars = to_chars(millis);
        match parse_integer(chars.as_slice()) {
            Some(skew_millis) => Ok(Config::new(file_path, skew_millis)),
            None => Err(SkewError::InvalidArgument),
        }
    }

    /// The path of the file to shift.
    pub fn file_path(&self) -> (path: &str)
        ensures
            path@ == self@.file_path,
    {
        self.file_path.as_str()
    }

    /// The milliseconds to shift by; negative to shift towards the start.
    pub fn skew_millis(&self) -> (millis: i64)
        ensures
            millis == self@.skew_millis,
    {
        self.skew_millis
    }
}

} // verus!
