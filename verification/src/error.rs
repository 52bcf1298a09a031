//! The errors a request can end with, and their messages.

use vstd::prelude::*;
use vstd::string::StringExecFns;

verus! {

/// Why a request was refused.
#[derive(Debug, PartialEq)]
pub enum ContractError {
    /// Something is missing from the state, or a machine limit is reached; the
    /// text says what.
    Std { msg: String },
    /// The instance is stamped with another name than the expected one, which
    /// the error holds.
    IncorrectContractName { contract_name: String },
    /// A record stands already under the id of a new donation.
    Unauthorized {},
    /// The address is not valid, or it is not the address of the caller.
    InvalidWalletAddress { address: String },
    /// The participant to register has a username already.
    UserAlreadyExists {},
    /// The username is taken, case ignored.
    UsernameNotAvailable { username: String },
    /// No participant is registered under the name; or, in a registration,
    /// the address has an entry already.
    UserNotFound { user: String },
    /// A username is required and none is given.
    EmptyUsername {},
    /// The username breaks the rule that `reason` states.
    InvalidUsername { username: String, reason: String },
    /// No funds are attached, or the first fund is of amount zero.
    NoDonation {},
    /// The message of a donation is longer than 250 characters.
    DonationMessageTooLong {},
}

/// What an error holds, with each text as a sequence of characters.
pub enum ErrorView {
    Std { msg: Seq<char> },
    IncorrectContractName { contract_name: Seq<char> },
    Unauthorized,
    InvalidWalletAddress { address: Seq<char> },
    UserAlreadyExists,
    UsernameNotAvailable { username: Seq<char> },
    UserNotFound { user: Seq<char> },
    EmptyUsername,
    InvalidUsername { username: Seq<char>, reason: Seq<char> },
    NoDonation,
    DonationMessageTooLong,
}

impl View for ContractError {
    type V = ErrorView;

    open spec fn view(&self) -> ErrorView {
        match *self {
            ContractError::Std { msg } => ErrorView::Std { msg: msg@ },
            ContractError::IncorrectContractName { contract_name } => {
                ErrorView::IncorrectContractName { contract_name: contract_name@ }
            },
            ContractError::Unauthorized {  } => ErrorView::Unauthorized,
            ContractError::InvalidWalletAddress { address } => ErrorView::InvalidWalletAddress {
                address: address@,
            },
            ContractError::UserAlreadyExists {  } => ErrorView::UserAlreadyExists,
            ContractError::UsernameNotAvailable { username } => ErrorView::UsernameNotAvailable {
                username: username@,
            },
            ContractError::UserNotFound { user } => ErrorView::UserNotFound { user: user@ },
            ContractError::EmptyUsername {  } => ErrorView::EmptyUsername,
            ContractError::InvalidUsername { username, reason } => ErrorView::InvalidUsername {
                username: username@,
                reason: reason@,
            },
            ContractError::NoDonation {  } => ErrorView::NoDonation,
            ContractError::DonationMessageTooLong {  } => ErrorView::DonationMessageTooLong,
        }
    }
}

/// A text as `{:?}` prints it: in double quotes, with its special characters escaped.
pub uninterp spec fn quoted_of(s: Seq<char>) -> Seq<char>;

/// Formats a text with the standard library's `Debug` for `str`. The result is
/// a function of the text alone; the contract names it `quoted_of`.
#[verifier::external_body]
pub(crate) fn quoted(s: &str) -> (r: String)
    ensures
        r@ == quoted_of(s@),
{
    format!("{:?}", s)
}

impl ContractError {
    /// The message of this error.
    pub open spec fn text(self) -> Seq<char> {
        match self {
            ContractError::Std { msg } => msg@,
            ContractError::IncorrectContractName { contract_name } => "Incorrect Contract Name ("@
                + quoted_of(contract_name@) + ")"@,
            ContractError::Unauthorized {  } => "Unauthorized"@,
            ContractError::InvalidWalletAddress { address } => "Invalid Wallet Address ("@
                + quoted_of(address@) + ")"@,
            ContractError::UserAlreadyExists {  } => "Address Already Registered"@,
            ContractError::UsernameNotAvailable { username } => "Username Taken ("@ + quoted_of(
                username@,
            ) + ")"@,
            ContractError::UserNotFound { user } => "User Not Found ("@ + quoted_of(user@) + ")"@,
            ContractError::EmptyUsername {  } => "Username cannot be empty"@,
            ContractError::InvalidUsername { username, reason } => "Invalid username ("@
                + quoted_of(username@) + ") - "@ + quoted_of(reason@),
            ContractError::NoDonation {  } => "You must send a donation"@,
            ContractError::DonationMessageTooLong {  } => "Donation message is too long"@,
        }
    }

    /// Renders the message of this error.
    pub fn to_string(&self) -> (s: String)
        ensures
            s@ == self.text(),
    {
        match self {
            ContractError::Std { msg } => msg.clone(),
            ContractError::IncorrectContractName { contract_name } => bracketed(
                "Incorrect Contract Name (",
                contract_name,
            ),
            ContractError::Unauthorized {  } => String::from_str("Unauthorized"),
            ContractError::InvalidWalletAddress { address } => bracketed(
                "Invalid Wallet Address (",
                address,
            ),
            ContractError::UserAlreadyExists {  } => String::from_str("Address Already Registered"),
            ContractError::UsernameNotAvailable { username } => bracketed(
                "Username Taken (",
                username,
            ),
            ContractError::UserNotFound { user } => bracketed("User Not Found (", user),
            ContractError::EmptyUsername {  } => String::from_str("Username cannot be empty"),
            ContractError::InvalidUsername { username, reason } => {
                let mut s = String::from_str("Invalid username (");
                let q = quoted(username.as_str());
                s.append(q.as_str());
                s.append(") - ");
                let r = quoted(reason.as_str());
                s.append(r.as_str());
                s
            },
            ContractError::NoDonation {  } => String::from_str("You must send a donation"),
            ContractError::DonationMessageTooLong {  } => String::from_str(
                "Donation message is too long",
            ),
        }
    }
}

/// `head`, the quoted form of `inner`, and a closing bracket.
fn bracketed(head: &str, inner: &String) -> (s: String)
    ensures
        s@ == head@ + quoted_of(inner@) + ")"@,
{
    let mut s = String::from_str(head);
    let q = quoted(inner.as_str());
    s.append(q.as_str());
    s.append(")");
    s
}

} // verus!
