//! Errors raised while reading a configuration.
use vstd::prelude::*;
use vstd::string::StringExecFns;

verus! {

/// A section that the configuration refers to is not defined.
#[derive(Debug)]
pub struct UndefinedSectionError {
    pub name: String,
}

impl UndefinedSectionError {
    /// The message that describes this error.
    pub fn describe(&self) -> (r: String)
        ensures
            r@ == "Undefined section: "@ + self.name@,
    {
        let mut r = String::from_str("Undefined section: ");
        r.append(self.name.as_str());
        r
    }
}

/// The configuration file is not valid.
#[derive(Debug)]
pub struct InvalidConfigError {
    pub message: String,
}

impl InvalidConfigError {
    /// The error with the given message.
    pub fn from_str(message: &str) -> (r: Self)
        ensures
            r.message@ == message@,
    {
        InvalidConfigError { message: String::from_str(message) }
    }

    /// The message that describes this error.
    pub fn describe(&self) -> (r: String)
        ensures
            r@ == "Invalid SSH config file; "@ + self.message@,
    {
        let mut r = String::from_str("Invalid SSH config file; ");
        r.append(self.message.as_str());
        r
    }
}

} // verus!
