//! What goes wrong, and what is said of it.

use vstd::prelude::*;
use crate::filter::PrepareFilterError;
use crate::pattern::{error_message, refusal_text};

verus! {

#[verifier::external_type_specification]
#[verifier::external_body]
pub struct ExIoError(std::io::Error);

/// Why the server could not be started, or why it stopped.
#[derive(Debug)]
pub enum ServerError {
    BindFailed(std::io::Error),
    Other(std::io::Error),
}

impl From<std::io::Error> for ServerError {
    fn from(error: std::io::Error) -> (r: Self) {
        ServerError::Other(error)
    }
}

impl vstd::std_specs::convert::FromSpecImpl<std::io::Error> for ServerError {
    open spec fn obeys_from_spec() -> bool {
        true
    }

    open spec fn from_spec(error: std::io::Error) -> Self {
        ServerError::Other(error)
    }
}

/// Whether the kind of an error is that an address is in use already.
pub uninterp spec fn tells_address_in_use(error: std::io::Error) -> bool;

/// Whether an error says that an address is in use already, as
/// `std::io::Error::kind` tells. The kind of an error is settled by the
/// error and by nothing else; `tells_address_in_use` names whether it is
/// this one.
#[verifier::external_body]
fn is_address_in_use(error: &std::io::Error) -> (r: bool)
    ensures
        r == tells_address_in_use(*error),
{
    error.kind() == std::io::ErrorKind::AddrInUse
}

/// What an error has to say, as `std::io::Error` prints it. What is printed
/// of an error of the operating system is the system's own matter, so
/// nothing is said of it here.
#[verifier::external_body]
fn describe(error: &std::io::Error) -> (r: String)
{
    format!("{}", error)
}

/// What is said where the address of the server is in use already.
pub open spec fn address_in_use_message() -> Seq<char> {
    "cannot server the server: address is already in use; you probably want to pick a different port with `--port`"@
}

/// What the user is told of an error of which `printed` is printed: that
/// the address is in use, where the server could not bind it for that;
/// that the server could not be started, and why, where it could not bind
/// its address for another reason; and else what is printed of the error.
pub open spec fn told_of(bind_failed: bool, address_in_use: bool, printed: Seq<char>) -> Seq<char> {
    if bind_failed && address_in_use {
        address_in_use_message()
    } else if bind_failed {
        "failed to start the server: "@ + printed
    } else {
        printed
    }
}

/// What the user is told of an error of which `printed` is printed.
pub fn error_text(bind_failed: bool, address_in_use: bool, printed: String) -> (r: String)
    ensures
        r@ == told_of(bind_failed, address_in_use, printed@),
{
    if bind_failed && address_in_use {
        String::from_str(
            "cannot server the server: address is already in use; you probably want to pick a different port with `--port`",
        )
    } else if bind_failed {
        let mut message = String::from_str("failed to start the server: ");
        message.append(printed.as_str());
        message
    } else {
        printed
    }
}

impl ServerError {
    /// The error that stopped the server.
    pub open spec fn cause(&self) -> std::io::Error {
        match self {
            ServerError::BindFailed(error) => *error,
            ServerError::Other(error) => *error,
        }
    }

    /// What the user is told. A server that could not bind its address is
    /// told of as such; where the address was in use, the user is pointed to
    /// the option that picks another port.
    pub fn message(&self) -> (r: String)
        ensures
            exists|printed: Seq<char>|
                r@ == #[trigger] told_of(self is BindFailed, tells_address_in_use(self.cause()), printed),
            self is BindFailed && tells_address_in_use(self.cause()) ==> r@
                == address_in_use_message(),
    {
        let (bind_failed, error) = match self {
            ServerError::BindFailed(error) => (true, error),
            ServerError::Other(error) => (false, error),
        };
        let in_use = is_address_in_use(error);
        let printed = describe(error);
        let ghost shown = printed@;
        let text = error_text(bind_failed, in_use, printed);
        assert(*error == self.cause());
        assert(text@ == told_of(self is BindFailed, tells_address_in_use(self.cause()), shown));
        text
    }
}

impl PrepareFilterError {
    /// What the client is told of a filter that could not be prepared: the
    /// field whose pattern was refused, with what the regex engine says of
    /// the pattern; or that the script failed, with the script's message.
    pub fn message(&self) -> (r: String)
        ensures
            self matches PrepareFilterError::InvalidRegex(field, error) ==> r@ == "invalid '"@ + field@
                + "': "@ + refusal_text(*error),
            self matches PrepareFilterError::InvalidCustomFilter(message) ==> r@
                == "failed to evaluate custom filter: "@ + message@,
    {
        match self {
            PrepareFilterError::InvalidRegex(field, error) => {
                let mut message = String::from_str("invalid '");
                message.append(field);
                message.append("': ");
                let text = error_message(error);
                message.append(text.as_str());
                message
            },
            PrepareFilterError::InvalidCustomFilter(text) => {
                let mut message = String::from_str("failed to evaluate custom filter: ");
                message.append(text.as_str());
                message
            },
        }
    }
}

} // verus!
