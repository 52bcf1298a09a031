//! The requests that change the state: registration and donation.

use crate::error::{ContractError, ErrorView};
use crate::ledger::{has_id, with_record};
use crate::msg::{
    Attribute, BankMsg, BankMsgView, Env, ExecuteMsg, InstantiateMsg, MessageInfo, MigrateMsg,
    Response, ResponseView,
};
use crate::state::{
    coins_view, contract_name, resolve, taken, AlpineContract, AlpineUser, Coin, CoinView,
    ContractVersion, ContractView, DonationInfo, DonationView, UserView,
};
use crate::table::{lookup, put};
use crate::text::{decimal, decimal_text, padded_decimal_text};
use crate::traits::DonationExecute;
use vstd::prelude::*;
use vstd::string::{StrSliceExecFns, StringExecFns};

verus! {

/// The longest username accepted, in characters.
pub const MAX_USERNAME_CHARS: usize = 32;

/// A character that a username may hold: an ASCII letter or digit, a dash or an underscore.
pub open spec fn is_username_char(c: char) -> bool {
    ||| 'a' <= c <= 'z'
    ||| 'A' <= c <= 'Z'
    ||| '0' <= c <= '9'
    ||| c == '-'
    ||| c == '_'
}

/// The reason given for a username of more than 32 characters.
pub open spec fn reason_too_long() -> Seq<char> {
    "must be shorter than 33 characters"@
}

/// The reason given for a username with a character outside the accepted set.
pub open spec fn reason_bad_character() -> Seq<char> {
    "only alphanumeric, underscores, and dashes are allowed"@
}

/// The error that a username is refused with, if it is refused. The empty
/// name is refused first, then one that is too long, then one with a
/// character outside the accepted set.
pub open spec fn username_fault(name: Seq<char>) -> Option<ErrorView> {
    if name.len() == 0 {
        Some(ErrorView::EmptyUsername)
    } else if name.len() > MAX_USERNAME_CHARS {
        Some(ErrorView::InvalidUsername { username: name, reason: reason_too_long() })
    } else if exists|i: int| 0 <= i < name.len() && !is_username_char(#[trigger] name[i]) {
        Some(ErrorView::InvalidUsername { username: name, reason: reason_bad_character() })
    } else {
        None
    }
}

/// Executable form of [`is_username_char`].
pub fn username_char_ok(c: char) -> (ok: bool)
    ensures
        ok == is_username_char(c),
{
    ('a' <= c && c <= 'z') || ('A' <= c && c <= 'Z') || ('0' <= c && c <= '9') || c == '-' || c
        == '_'
}

/// Checks a username against the rules and hands it back unchanged when it passes.
pub fn validate_username(username: String) -> (r: Result<String, ContractError>)
    ensures
        match r {
            Ok(name) => username_fault(username@) is None && name@ == username@,
            Err(e) => username_fault(username@) == Some(e@),
        },
{
    let n = username.as_str().unicode_len();
    if n == 0 {
        return Err(ContractError::EmptyUsername {  });
    }
    if n > MAX_USERNAME_CHARS {
        return Err(
            ContractError::InvalidUsername {
                username,
                reason: String::from_str("must be shorter than 33 characters"),
            },
        );
    }
    let mut i: usize = 0;
    while i < n
        invariant
            n == username@.len(),
            0 < n <= MAX_USERNAME_CHARS,
            i <= n,
            forall|j: int| 0 <= j < i ==> is_username_char(#[trigger] username@[j]),
        decreases n - i,
    {
        let c = username.as_str().get_char(i);
        if !username_char_ok(c) {
            assert(!is_username_char(username@[i as int]));
            return Err(
                ContractError::InvalidUsername {
                    username,
                    reason: String::from_str(
                        "only alphanumeric, underscores, and dashes are allowed",
                    ),
                },
            );
        }
        i = i + 1;
    }
    Ok(username)
}

/// The longest message that a donation may carry, in characters.
pub const MAX_MESSAGE_CHARS: usize = 250;

/// The share of a donation that goes to the platform, in hundredths.
pub const FEE_PERCENT: u64 = 3;

/// The address that the platform's share is sent to.
pub open spec fn platform_address() -> Seq<char> {
    "osmo1zw5337y7a7ajj2jz4t0teyzcy5dup5k8wjz88a"@
}

/// The platform's share of `amount`: three hundredths, rounded down.
pub open spec fn commission(amount: u128) -> u128 {
    (amount * FEE_PERCENT / 100) as u128
}

/// Multiplies an amount by a percentage with `cosmwasm_std`: `Decimal::percent`
/// makes the fraction and `Decimal * Uint128` the product, which that crate
/// computes in 256 bits and rounds down. It panics where the product does not
/// fit 128 bits, which a percentage of at most 100 rules out.
#[verifier::external_body]
pub(crate) fn percent_of(percent: u64, amount: u128) -> (part: u128)
    requires
        percent <= 100,
    ensures
        part == amount * percent / 100,
{
    (cosmwasm_std::Decimal::percent(percent) * cosmwasm_std::Uint128::new(amount)).u128()
}

/// A point in time as text: the whole seconds in decimal digits, a dot, and
/// the nanoseconds of the second in nine digits.
pub open spec fn timestamp_text(nanos: u64) -> Seq<char> {
    decimal_text(nanos as int / 1_000_000_000) + seq!['.'] + padded_decimal_text(
        nanos as int % 1_000_000_000,
        9,
    )
}

/// Formats a time with `Display` of `cosmwasm_std::Timestamp`, which writes
/// the seconds, a dot, and the nanoseconds of the second padded with zeros to
/// nine digits.
#[verifier::external_body]
pub(crate) fn timestamp_string(nanos: u64) -> (r: String)
    ensures
        r@ == timestamp_text(nanos),
{
    cosmwasm_std::Timestamp::from_nanos(nanos).to_string()
}

/// The participant that a registration stores: `user` under the name `username`.
pub open spec fn named(user: UserView, username: Seq<char>) -> UserView {
    UserView { username, address: user.address }
}

/// The error that a registration is refused with, if it is refused. The rules
/// on the username come first; then a participant who has a username already,
/// an address that has an entry already, an address that is not valid, and a
/// username that is taken when case is ignored.
pub open spec fn registration_fault(
    c: ContractView,
    address_valid: bool,
    user: UserView,
    username: Seq<char>,
) -> Option<ErrorView> {
    if username_fault(username) is Some {
        username_fault(username)
    } else if user.username.len() > 0 {
        Some(ErrorView::UserAlreadyExists)
    } else if lookup(c.addresses, user.address) is Some {
        Some(ErrorView::UserNotFound { user: user.address })
    } else if !(address_valid && user.address.len() > 0) {
        Some(ErrorView::InvalidWalletAddress { address: user.address })
    } else if taken(c.usernames, username) {
        Some(ErrorView::UsernameNotAvailable { username })
    } else {
        None
    }
}

/// The state after `user` was registered as `username`: the participant
/// stands under the username and under the address.
pub open spec fn registered(c: ContractView, user: UserView, username: Seq<char>) -> ContractView {
    ContractView {
        usernames: put(c.usernames, username, named(user, username)),
        addresses: put(c.addresses, user.address, named(user, username)),
        ..c
    }
}

/// Who a donation comes from: the anonymous participant of the caller's
/// address where no sender is named, else the participant registered under
/// the sender's name.
pub open spec fn donor(
    c: ContractView,
    sender_valid: bool,
    caller: Seq<char>,
    sender: Seq<char>,
) -> Result<UserView, ErrorView> {
    if sender.len() == 0 {
        if sender_valid && caller.len() > 0 {
            Ok(UserView { username: Seq::empty(), address: caller })
        } else {
            Err(ErrorView::InvalidWalletAddress { address: caller })
        }
    } else {
        match resolve(c.usernames, sender) {
            Some(user) => Ok(user),
            None => Err(ErrorView::UserNotFound { user: sender }),
        }
    }
}

/// The error that a donation is refused with, if it is refused.
pub open spec fn donation_fault(
    c: ContractView,
    sender_valid: bool,
    caller: Seq<char>,
    funds: Seq<CoinView>,
    sender: Seq<char>,
    recipient: Seq<char>,
    message: Seq<char>,
) -> Option<ErrorView> {
    if recipient.len() == 0 {
        Some(ErrorView::EmptyUsername)
    } else if funds.len() == 0 || funds[0].amount == 0 {
        Some(ErrorView::NoDonation)
    } else if donor(c, sender_valid, caller, sender) is Err {
        Some(donor(c, sender_valid, caller, sender)->Err_0)
    } else if donor(c, sender_valid, caller, sender)->Ok_0.address != caller {
        Some(
            ErrorView::InvalidWalletAddress {
                address: donor(c, sender_valid, caller, sender)->Ok_0.address,
            },
        )
    } else if message.len() > MAX_MESSAGE_CHARS {
        Some(ErrorView::DonationMessageTooLong)
    } else if resolve(c.usernames, recipient) is None {
        Some(ErrorView::UserNotFound { user: recipient })
    } else if c.donation_count == u64::MAX {
        Some(ErrorView::Std { msg: "donation count overflow"@ })
    } else if has_id(c.donations, (c.donation_count + 1) as u64) {
        Some(ErrorView::Unauthorized)
    } else {
        None
    }
}

/// The record of a donation that is not refused.
pub open spec fn donation_record(
    c: ContractView,
    sender_valid: bool,
    time: u64,
    caller: Seq<char>,
    funds: Seq<CoinView>,
    sender: Seq<char>,
    recipient: Seq<char>,
    message: Seq<char>,
) -> DonationView {
    DonationView {
        sender: donor(c, sender_valid, caller, sender)->Ok_0,
        recipient: resolve(c.usernames, recipient)->0,
        amount: funds,
        message,
        timestamp: Some(time),
    }
}

/// The state after the donation `d` was recorded: the count is one higher and
/// the record stands under the new count.
pub open spec fn donated(c: ContractView, d: DonationView) -> ContractView {
    ContractView {
        donation_count: (c.donation_count + 1) as u64,
        donations: with_record(c.donations, (c.donation_count + 1) as u64, d),
        ..c
    }
}

/// What the donation recorded as `d` under `id` hands back. Of the attached
/// funds only the first entry is split and moved: the recipient gets it less
/// the commission, and the platform gets the commission.
pub open spec fn donation_response(d: DonationView, id: u64) -> ResponseView {
    let first = d.amount[0];
    let fee = commission(first.amount);
    ResponseView {
        messages: seq![
            BankMsgView {
                to_address: d.recipient.address,
                amount: seq![CoinView { denom: first.denom, amount: (first.amount - fee) as u128 }],
            },
            BankMsgView {
                to_address: platform_address(),
                amount: seq![CoinView { denom: first.denom, amount: fee }],
            },
        ],
        attributes: seq![
            ("sender_address"@, d.sender.address),
            ("sender_username"@, d.sender.username),
            ("recipient_address"@, d.recipient.address),
            ("recipient_username"@, d.recipient.username),
            ("amount"@, decimal_text(first.amount as int)),
            ("message"@, d.message),
            ("timestamp"@, timestamp_text(d.timestamp->0)),
            ("id"@, decimal_text(id as int)),
        ],
    }
}

/// What a donation request does: refused, it gives the error of
/// [`donation_fault`] and leaves the state `before` as it was; else the state
/// `after` holds the new record under the new count, and the response says
/// which funds to move.
pub open spec fn donation_outcome(
    before: ContractView,
    after: ContractView,
    sender_valid: bool,
    time: u64,
    caller: Seq<char>,
    funds: Seq<CoinView>,
    sender: Seq<char>,
    recipient: Seq<char>,
    message: Seq<char>,
    r: Result<Response, ContractError>,
) -> bool {
    let fault = donation_fault(before, sender_valid, caller, funds, sender, recipient, message);
    let d = donation_record(before, sender_valid, time, caller, funds, sender, recipient, message);
    match r {
        Ok(response) => {
            &&& fault is None
            &&& after == donated(before, d)
            &&& response@ == donation_response(d, after.donation_count)
        },
        Err(e) => fault == Some(e@) && after == before,
    }
}

/// What a registration request does: refused, it gives the error of
/// [`registration_fault`] and leaves the state `before` as it was; else the
/// state `after` holds the participant under the username and the address, and
/// the response reports the username.
pub open spec fn registration_outcome(
    before: ContractView,
    after: ContractView,
    address_valid: bool,
    user: UserView,
    username: Seq<char>,
    r: Result<Response, ContractError>,
) -> bool {
    let fault = registration_fault(before, address_valid, user, username);
    match r {
        Ok(response) => {
            &&& fault is None
            &&& after == registered(before, user, username)
            &&& response@ == (ResponseView {
                messages: Seq::empty(),
                attributes: seq![("username"@, username)],
            })
        },
        Err(e) => fault == Some(e@) && after == before,
    }
}

/// An attribute from a key and a value.
fn attribute(key: &str, value: String) -> (a: Attribute)
    ensures
        a.key@ == key@,
        a.value@ == value@,
{
    Attribute { key: String::from_str(key), value }
}

/// An instruction to send `amount` of `denom` to `to_address`.
fn send_one(to_address: String, denom: String, amount: u128) -> (m: BankMsg)
    ensures
        m@ == (BankMsgView {
            to_address: to_address@,
            amount: seq![CoinView { denom: denom@, amount }],
        }),
{
    let mut coins: Vec<Coin> = Vec::new();
    coins.push(Coin { denom, amount });
    let m = BankMsg { to_address, amount: coins };
    assert(m@.amount =~= seq![CoinView { denom: denom@, amount }]);
    m
}

impl DonationExecute for AlpineContract {
    /// Records a donation from the caller to the participant registered as
    /// `recipient` and says which funds to move. `sender_valid` is what the
    /// address validator said of the caller's address. A refused donation
    /// leaves the state as it was.
    fn send_donation(
        &mut self,
        sender_valid: bool,
        env: Env,
        info: MessageInfo,
        sender: String,
        recipient: String,
        message: String,
    ) -> (r: Result<Response, ContractError>)
        ensures
            donation_outcome(
                old(self)@,
                final(self)@,
                sender_valid,
                env.time,
                info.sender@,
                coins_view(info.funds@),
                sender@,
                recipient@,
                message@,
                r,
            ),
    {
        if recipient.as_str().is_empty() {
            return Err(ContractError::EmptyUsername {  });
        }
        if info.funds.len() == 0 || info.funds[0].amount == 0 {
            return Err(ContractError::NoDonation {  });
        }
        let sender_user = if sender.as_str().is_empty() {
            match AlpineUser::new(sender_valid, info.sender.clone(), None) {
                Ok(user) => user,
                Err(e) => {
                    return Err(e);
                },
            }
        } else {
            match self.find_alpine_username(sender) {
                Ok(user) => user,
                Err(e) => {
                    return Err(e);
                },
            }
        };
        if info.sender != sender_user.address {
            return Err(ContractError::InvalidWalletAddress { address: sender_user.address });
        }
        if message.as_str().unicode_len() > MAX_MESSAGE_CHARS {
            return Err(ContractError::DonationMessageTooLong {  });
        }
        let recipient_user = match self.find_alpine_username(recipient) {
            Ok(user) => user,
            Err(e) => {
                return Err(e);
            },
        };
        if self.donation_count == u64::MAX {
            return Err(ContractError::Std { msg: String::from_str("donation count overflow") });
        }
        if self.donations.has(self.donation_count + 1) {
            return Err(ContractError::Unauthorized {  });
        }
        let total: u128 = info.funds[0].amount;
        let denom = info.funds[0].denom.clone();
        let donation = DonationInfo {
            sender: sender_user,
            recipient: recipient_user,
            amount: info.funds,
            message,
            timestamp: Some(env.time),
        };
        let ghost d = donation@;
        let id = match self.increment_donations() {
            Ok(id) => id,
            Err(e) => {
                return Err(e);
            },
        };
        match self.donations.create(id, donation.clone()) {
            Ok(()) => {},
            Err(e) => {
                return Err(e);
            },
        }
        let fee = percent_of(FEE_PERCENT, total);
        assert(fee <= total) by (nonlinear_arith)
            requires
                fee == total * 3 / 100,
        ;
        let mut messages: Vec<BankMsg> = Vec::new();
        messages.push(send_one(donation.recipient.address.clone(), denom.clone(), total - fee));
        messages.push(
            send_one(String::from_str("osmo1zw5337y7a7ajj2jz4t0teyzcy5dup5k8wjz88a"), denom, fee),
        );
        let mut attributes: Vec<Attribute> = Vec::new();
        attributes.push(attribute("sender_address", donation.sender.address.clone()));
        attributes.push(attribute("sender_username", donation.sender.username.clone()));
        attributes.push(attribute("recipient_address", donation.recipient.address.clone()));
        attributes.push(attribute("recipient_username", donation.recipient.username.clone()));
        attributes.push(attribute("amount", decimal(total)));
        attributes.push(attribute("message", donation.message));
        attributes.push(attribute("timestamp", timestamp_string(env.time)));
        attributes.push(attribute("id", decimal(id as u128)));
        let response = Response { messages, attributes };
        assert(response@.messages =~= donation_response(d, id).messages);
        assert(response@.attributes =~= donation_response(d, id).attributes);
        Ok(response)
    }

    /// Registers `username` for `user`. `address_valid` is what the address
    /// validator said of the user's address. A refused registration leaves the
    /// state as it was.
    fn register_user(
        &mut self,
        address_valid: bool,
        env: Env,
        user: AlpineUser,
        username: String,
    ) -> (r: Result<Response, ContractError>)
        ensures
            registration_outcome(old(self)@, final(self)@, address_valid, user@, username@, r),
    {
        let valid_username = match validate_username(username.clone()) {
            Ok(name) => name,
            Err(e) => {
                return Err(e);
            },
        };
        if !user.username.as_str().is_empty() {
            return Err(ContractError::UserAlreadyExists {  });
        }
        match self.get_user_by_address(user.address.clone()) {
            Ok(_) => {
                return Err(ContractError::UserNotFound { user: user.address.clone() });
            },
            Err(_) => {},
        }
        let mut user = match AlpineUser::new(address_valid, user.address, None) {
            Ok(fresh) => fresh,
            Err(e) => {
                return Err(e);
            },
        };
        if self.contains_username(valid_username.clone()) {
            return Err(ContractError::UsernameNotAvailable { username: valid_username });
        }
        user.username = valid_username;
        self.usernames.save(username, &user);
        self.addresses.save(user.address.clone(), &user);
        let mut attributes: Vec<Attribute> = Vec::new();
        attributes.push(attribute("username", user.username));
        let response = Response { messages: Vec::new(), attributes };
        assert(response@.messages =~= Seq::empty());
        assert(response@.attributes =~= seq![("username"@, username@)]);
        Ok(response)
    }
}

/// The version that a new instance is stamped with.
pub open spec fn contract_version() -> Seq<char> {
    "0.1.0"@
}

/// A response without funds to move and without attributes.
pub open spec fn empty_response() -> ResponseView {
    ResponseView { messages: Seq::empty(), attributes: Seq::empty() }
}

/// What a request that changes the state does, by its kind. A registration
/// whose caller is not the participant to register is refused with
/// `InvalidWalletAddress` and leaves the state as it was.
pub open spec fn execute_outcome(
    before: ContractView,
    after: ContractView,
    sender_valid: bool,
    time: u64,
    caller: Seq<char>,
    funds: Seq<CoinView>,
    msg: ExecuteMsg,
    r: Result<Response, ContractError>,
) -> bool {
    match msg {
        ExecuteMsg::SendDonation { sender, recipient, message } => donation_outcome(
            before,
            after,
            sender_valid,
            time,
            caller,
            funds,
            sender@,
            recipient@,
            message@,
            r,
        ),
        ExecuteMsg::RegisterUser { user, username } => if caller != user@.address {
            &&& r matches Err(e)
            &&& e@ == ErrorView::InvalidWalletAddress { address: user@.address }
            &&& after == before
        } else {
            registration_outcome(before, after, sender_valid, user@, username@, r)
        },
    }
}

impl AlpineContract {
    /// Sets an instance up: stamps it with the name and the version of this library.
    pub fn instantiate(&mut self, env: Env, info: MessageInfo, msg: InstantiateMsg) -> (r: Result<
        Response,
        ContractError,
    >)
        ensures
            r matches Ok(response) && response@ == empty_response(),
            final(self)@ == (ContractView {
                version: Some((contract_name(), contract_version())),
                ..old(self)@
            }),
    {
        self.version = Some(
            ContractVersion {
                contract: String::from_str("crates.io:alpine-pay"),
                version: String::from_str("0.1.0"),
            },
        );
        Ok(Response::default())
    }

    /// Moves an instance to this code. An instance that was never stamped is
    /// refused with `Std`, one stamped with another name with
    /// `IncorrectContractName`. The state stays as it was in each case.
    pub fn migrate(&mut self, env: Env, msg: MigrateMsg) -> (r: Result<Response, ContractError>)
        ensures
            final(self)@ == old(self)@,
            match r {
                Ok(response) => {
                    &&& old(self)@.version matches Some(v)
                    &&& v.0 == contract_name()
                    &&& response@ == empty_response()
                },
                Err(e) => match old(self)@.version {
                    None => e@ == ErrorView::Std { msg: "contract version not found"@ },
                    Some(v) => v.0 != contract_name() && e@ == ErrorView::IncorrectContractName {
                        contract_name: contract_name(),
                    },
                },
            },
    {
        match &self.version {
            None => Err(ContractError::Std { msg: String::from_str("contract version not found") }),
            Some(ver) => {
                let expected = String::from_str("crates.io:alpine-pay");
                if ver.contract != expected {
                    Err(ContractError::IncorrectContractName { contract_name: expected })
                } else {
                    Ok(Response::default())
                }
            },
        }
    }

    /// Routes a request that changes the state. `sender_valid` is what the
    /// address validator said of the caller's address.
    pub fn execute(
        &mut self,
        sender_valid: bool,
        env: Env,
        info: MessageInfo,
        msg: ExecuteMsg,
    ) -> (r: Result<Response, ContractError>)
        ensures
            execute_outcome(
                old(self)@,
                final(self)@,
                sender_valid,
                env.time,
                info.sender@,
                coins_view(info.funds@),
                msg,
                r,
            ),
    {
        match msg {
            ExecuteMsg::SendDonation { sender, recipient, message } => self.send_donation(
                sender_valid,
                env,
                info,
                sender,
                recipient,
                message,
            ),
            ExecuteMsg::RegisterUser { user, username } => {
                if info.sender != user.address {
                    return Err(ContractError::InvalidWalletAddress { address: user.address });
                }
                self.register_user(sender_valid, env, user, username)
            },
        }
    }
}

} // verus!
