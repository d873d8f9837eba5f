//! The stored session key.

use crate::text::{chars_of, concat3, trim_end, trim_end_of};
use vstd::prelude::*;

verus! {

/// The file in the home directory that holds the session key.
pub const CONFIG_FILE_NAME: &'static str = ".humble-cli-key";

/// What the client remembers between runs.
#[derive(Debug)]
pub struct Config {
    pub session_key: String,
}

impl Config {
    /// The configuration that the contents of the key file stand for: the
    /// session key is the contents without the white space at their end.
    pub fn from_file_contents(contents: &str) -> (r: Config)
        ensures
            r.session_key@ == trim_end_of(contents@),
    {
        Config { session_key: trim_end(&chars_of(contents)) }
    }

    /// What is written to the key file: the session key as it is.
    pub fn file_contents(&self) -> (r: &str)
        ensures
            r@ == self.session_key@,
    {
        self.session_key.as_str()
    }
}

/// The explanation for a key file that cannot be read.
pub fn read_failure_message(file_name: &str) -> (r: String)
    ensures
        r@ == "failed to read the session key from `"@ + file_name@ + "` file"@,
{
    concat3("failed to read the session key from `", file_name, "` file")
}

} // verus!
