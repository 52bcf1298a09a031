//! The requests that the library answers, and the shapes of its answers.

use crate::state::{coins_view, AlpineUser, Coin, CoinView, DonationInfo};
use vstd::prelude::*;

verus! {

/// The request that sets an instance up.
#[derive(Clone, Debug, PartialEq)]
pub struct InstantiateMsg {}

/// The request that moves an instance to new code.
#[derive(Clone, Debug, PartialEq)]
pub struct MigrateMsg {}

/// A request that changes the state.
#[derive(Clone, Debug, PartialEq)]
pub enum ExecuteMsg {
    SendDonation { sender: String, recipient: String, message: String },
    RegisterUser { user: AlpineUser, username: String },
}

/// A request that only reads.
#[derive(Clone, Debug, PartialEq)]
pub enum QueryMsg {
    GetSentDonations { sender: String },
    GetReceivedDonations { recipient: String },
    GetSingleDonation { id: u64 },
    GetDonationCount {},
    IsUsernameAvailable { username: String },
    GetAllUsers {},
    GetUserByAddr { address: String },
    GetUserByName { username: String },
}

/// Donations with their ids.
#[derive(Debug, PartialEq)]
pub struct MultiDonationResponse {
    pub donations: Vec<(u64, DonationInfo)>,
}

/// One donation.
#[derive(Debug, PartialEq)]
pub struct SingleDonationResponse {
    pub donation: DonationInfo,
}

/// Registered participants.
#[derive(Debug, PartialEq)]
pub struct MultiUserResponse {
    pub users: Vec<AlpineUser>,
}

/// The count of all donations.
#[derive(Clone, Debug, PartialEq)]
pub struct DonationCountResponse {
    pub count: u64,
}

/// Whether a username can still be registered.
#[derive(Clone, Debug, PartialEq)]
pub struct UsernameAvailableResponse {
    pub is_available: bool,
}

/// One participant.
#[derive(Debug, PartialEq)]
pub struct AlpineUserResponse {
    pub user: AlpineUser,
}

/// The answer to a [`QueryMsg`], one variant for each kind of answer.
#[derive(Debug, PartialEq)]
pub enum QueryResponse {
    Donations(MultiDonationResponse),
    Donation(SingleDonationResponse),
    DonationCount(DonationCountResponse),
    UsernameAvailable(UsernameAvailableResponse),
    Users(MultiUserResponse),
    User(AlpineUserResponse),
}

/// Who sent a request, and the funds attached to it.
#[derive(Clone, Debug, PartialEq)]
pub struct MessageInfo {
    pub sender: String,
    pub funds: Vec<Coin>,
}

/// The surroundings of a request.
#[derive(Clone, Debug, PartialEq)]
pub struct Env {
    /// The time of the block in nanoseconds.
    pub time: u64,
}

/// An instruction to move funds, for the caller to carry out.
#[derive(Debug, PartialEq)]
pub struct BankMsg {
    pub to_address: String,
    pub amount: Vec<Coin>,
}

/// A [`BankMsg`] with its texts as sequences of characters.
pub struct BankMsgView {
    pub to_address: Seq<char>,
    pub amount: Seq<CoinView>,
}

impl View for BankMsg {
    type V = BankMsgView;

    open spec fn view(&self) -> BankMsgView {
        BankMsgView { to_address: self.to_address@, amount: coins_view(self.amount@) }
    }
}

/// A named value that a request reports.
#[derive(Debug, PartialEq)]
pub struct Attribute {
    pub key: String,
    pub value: String,
}

/// What a request that changes the state hands back: the funds to move and
/// what it reports.
#[derive(Debug, PartialEq)]
pub struct Response {
    pub messages: Vec<BankMsg>,
    pub attributes: Vec<Attribute>,
}

/// A [`Response`] with its texts as sequences of characters; an attribute is
/// the pair of its key and its value.
pub struct ResponseView {
    pub messages: Seq<BankMsgView>,
    pub attributes: Seq<(Seq<char>, Seq<char>)>,
}

impl View for Response {
    type V = ResponseView;

    open spec fn view(&self) -> ResponseView {
        ResponseView {
            messages: Seq::new(self.messages@.len(), |i: int| self.messages@[i]@),
            attributes: Seq::new(
                self.attributes@.len(),
                |i: int| (self.attributes@[i].key@, self.attributes@[i].value@),
            ),
        }
    }
}

impl Default for Response {
    fn default() -> (r: Response)
        ensures
            r@ == (ResponseView { messages: Seq::empty(), attributes: Seq::empty() }),
    {
        let r = Response { messages: Vec::new(), attributes: Vec::new() };
        assert(r@.messages =~= Seq::empty());
        assert(r@.attributes =~= Seq::empty());
        r
    }
}

} // verus!
