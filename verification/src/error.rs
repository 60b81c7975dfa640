//! Errors of the monitoring library.
use vstd::prelude::*;

verus! {

/// What went wrong, with a message.
#[derive(Debug, Clone)]
pub enum SystemError {
    /// Reading system information failed.
    System(String),
    /// Text could not be parsed.
    Parse(String),
    /// A network operation failed.
    Network(String),
    /// The web server failed.
    WebServer(String),
    /// The configuration is invalid.
    Config(String),
    /// GPIO access failed.
    Gpio(String),
}

impl SystemError {
    /// The message that the error carries.
    pub open spec fn message(self) -> Seq<char> {
        match self {
            SystemError::System(m) => m@,
            SystemError::Parse(m) => m@,
            SystemError::Network(m) => m@,
            SystemError::WebServer(m) => m@,
            SystemError::Config(m) => m@,
            SystemError::Gpio(m) => m@,
        }
    }

    /// The words that introduce the message when the error is displayed.
    pub open spec fn label(self) -> Seq<char> {
        match self {
            SystemError::System(_) => seq!['S', 'y', 's', 't', 'e', 'm', ' ', 'e', 'r', 'r', 'o', 'r', ':', ' '],
            SystemError::Parse(_) => seq!['P', 'a', 'r', 's', 'e', ' ', 'e', 'r', 'r', 'o', 'r', ':', ' '],
            SystemError::Network(_) => seq!['N', 'e', 't', 'w', 'o', 'r', 'k', ' ', 'e', 'r', 'r', 'o', 'r', ':', ' '],
            SystemError::WebServer(_) => seq!['W', 'e', 'b', ' ', 's', 'e', 'r', 'v', 'e', 'r', ' ', 'e', 'r', 'r', 'o', 'r', ':', ' '],
            SystemError::Config(_) => seq!['C', 'o', 'n', 'f', 'i', 'g', 'u', 'r', 'a', 't', 'i', 'o', 'n', ' ', 'e', 'r', 'r', 'o', 'r', ':', ' '],
            SystemError::Gpio(_) => seq!['G', 'P', 'I', 'O', ' ', 'e', 'r', 'r', 'o', 'r', ':', ' '],
        }
    }

    /// A system error with the message `msg`.
    pub fn system_error(msg: &str) -> (e: SystemError)
        ensures
            e is System && e.message() == msg@,
    {
        SystemError::System(String::from_str(msg))
    }

    /// A parse error with the message `msg`.
    pub fn parse_error(msg: &str) -> (e: SystemError)
        ensures
            e is Parse && e.message() == msg@,
    {
        SystemError::Parse(String::from_str(msg))
    }

    /// A network error with the message `msg`.
    pub fn network_error(msg: &str) -> (e: SystemError)
        ensures
            e is Network && e.message() == msg@,
    {
        SystemError::Network(String::from_str(msg))
    }

    /// A web server error with the message `msg`.
    pub fn web_server_error(msg: &str) -> (e: SystemError)
        ensures
            e is WebServer && e.message() == msg@,
    {
        SystemError::WebServer(String::from_str(msg))
    }

    /// A configuration error with the message `msg`.
    pub fn config_error(msg: &str) -> (e: SystemError)
        ensures
            e is Config && e.message() == msg@,
    {
        SystemError::Config(String::from_str(msg))
    }

    /// A GPIO error with the message `msg`.
    pub fn gpio_error(msg: &str) -> (e: SystemError)
        ensures
            e is Gpio && e.message() == msg@,
    {
        SystemError::Gpio(String::from_str(msg))
    }

    /// The error as it reads to a person: its label, then its message.
    pub fn to_display_string(&self) -> (s: String)
        ensures
            s@ == self.label() + self.message(),
    {
        let (label, msg) = match self {
            SystemError::System(m) => ("System error: ", m),
            SystemError::Parse(m) => ("Parse error: ", m),
            SystemError::Network(m) => ("Network error: ", m),
            SystemError::WebServer(m) => ("Web server error: ", m),
            SystemError::Config(m) => ("Configuration error: ", m),
            SystemError::Gpio(m) => ("GPIO error: ", m),
        };
        proof {
            reveal_strlit("System error: ");
            reveal_strlit("Parse error: ");
            reveal_strlit("Network error: ");
            reveal_strlit("Web server error: ");
            reveal_strlit("Configuration error: ");
            reveal_strlit("GPIO error: ");
        }
        let mut s = String::from_str(label);
        s.append(msg.as_str());
        s
    }
}

} // verus!

verus! {

/// The result of an operation of this library.
pub type Result<T> = core::result::Result<T, SystemError>;

} // verus!
