//! The two faces of the library: the requests that read and those that change.

use crate::error::ContractError;
use crate::msg::{
    AlpineUserResponse, DonationCountResponse, Env, MessageInfo, MultiDonationResponse,
    MultiUserResponse, Response, SingleDonationResponse, UsernameAvailableResponse,
};
use crate::state::AlpineUser;
use vstd::prelude::*;

verus! {

/// Everything a donation registry offers.
pub trait Donation: DonationQuery + DonationExecute {

}

/// The requests that only read.
pub trait DonationQuery {
    /// A participant is registered under `username`, case ignored.
    spec fn knows(&self, username: Seq<char>) -> bool;

    /// The donations that the participant registered as `sender` sent, oldest first.
    fn get_sent_donations(&self, sender: String) -> MultiDonationResponse
        requires
            self.knows(sender@),
    ;

    /// The donations that the participant registered as `recipient` received, oldest first.
    fn get_received_donations(&self, recipient: String) -> MultiDonationResponse
        requires
            self.knows(recipient@),
    ;

    /// The donation recorded under `id`.
    fn get_single_donation(&self, id: u64) -> Result<SingleDonationResponse, ContractError>;

    /// The count of all donations.
    fn get_donation_count(&self) -> DonationCountResponse;

    /// Whether `username` can still be registered.
    fn is_username_available(&self, username: String) -> UsernameAvailableResponse;

    /// All registered participants, in the ascending order of their usernames.
    fn get_all_users(&self) -> MultiUserResponse;

    /// A participant is registered for `address`.
    spec fn has_address(&self, address: Seq<char>) -> bool;

    /// The participant registered for `address`; an anonymous one where none
    /// is, which takes an address that is valid.
    fn get_user_by_addr(&self, address_valid: bool, address: String) -> AlpineUserResponse
        requires
            self.has_address(address@) || (address_valid && address@.len() > 0),
    ;

    /// The participant registered as `username`; the empty one where none is.
    fn get_user_by_name(&self, username: String) -> AlpineUserResponse;
}

/// The requests that change the state.
pub trait DonationExecute {
    /// Records a donation and says which funds to move.
    fn send_donation(
        &mut self,
        sender_valid: bool,
        env: Env,
        info: MessageInfo,
        sender: String,
        recipient: String,
        message: String,
    ) -> Result<Response, ContractError>;

    /// Registers `username` for `user`.
    fn register_user(
        &mut self,
        address_valid: bool,
        env: Env,
        user: AlpineUser,
        username: String,
    ) -> Result<Response, ContractError>;
}

} // verus!
