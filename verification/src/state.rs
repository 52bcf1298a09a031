//! The data of the registry and of the donation ledger.

use crate::error::{ContractError, ErrorView};
use crate::ledger::DonationMap;
use crate::table::{ascending, lookup, UserTable};
use crate::text::{eq_ignoring_case, same_ignoring_case, text_lt};
use vstd::prelude::*;
use vstd::string::StringExecFns;

verus! {

/// A participant: a wallet address and the username registered for it. The
/// empty username stands for a participant without one.
#[derive(Debug, PartialEq)]
pub struct AlpineUser {
    pub username: String,
    pub address: String,
}

/// An [`AlpineUser`] with its texts as sequences of characters.
pub struct UserView {
    pub username: Seq<char>,
    pub address: Seq<char>,
}

impl View for AlpineUser {
    type V = UserView;

    open spec fn view(&self) -> UserView {
        UserView { username: self.username@, address: self.address@ }
    }
}

impl Clone for AlpineUser {
    fn clone(&self) -> (r: AlpineUser)
        ensures
            r@ == self@,
    {
        AlpineUser { username: self.username.clone(), address: self.address.clone() }
    }
}

impl AlpineUser {
    /// Makes a participant from an address and what the address validator
    /// said of it. An address that the validator refused, or an empty one, gives
    /// `InvalidWalletAddress`. Without a username the participant is anonymous.
    pub fn new(address_valid: bool, address: String, username: Option<String>) -> (r: Result<
        AlpineUser,
        ContractError,
    >)
        ensures
            match r {
                Ok(user) => {
                    &&& address_valid
                    &&& address@.len() > 0
                    &&& user@.address == address@
                    &&& user@.username == match username {
                        Some(name) => name@,
                        None => Seq::<char>::empty(),
                    }
                },
                Err(e) => {
                    &&& !(address_valid && address@.len() > 0)
                    &&& e@ == ErrorView::InvalidWalletAddress { address: address@ }
                },
            },
    {
        if !address_valid || address.as_str().is_empty() {
            return Err(ContractError::InvalidWalletAddress { address });
        }
        let username = match username {
            Some(name) => name,
            None => String::new(),
        };
        Ok(AlpineUser { username, address })
    }

    /// The participant that stands for "nobody": no username and no address.
    pub fn empty() -> (user: AlpineUser)
        ensures
            user@ == (UserView { username: Seq::empty(), address: Seq::empty() }),
    {
        AlpineUser { username: String::new(), address: String::new() }
    }
}

/// An amount of one denomination.
#[derive(Debug, PartialEq)]
pub struct Coin {
    pub denom: String,
    pub amount: u128,
}

/// A [`Coin`] with its denomination as a sequence of characters.
pub struct CoinView {
    pub denom: Seq<char>,
    pub amount: u128,
}

impl View for Coin {
    type V = CoinView;

    open spec fn view(&self) -> CoinView {
        CoinView { denom: self.denom@, amount: self.amount }
    }
}

impl Clone for Coin {
    fn clone(&self) -> (r: Coin)
        ensures
            r@ == self@,
    {
        Coin { denom: self.denom.clone(), amount: self.amount }
    }
}

/// The views of a list of coins, in order.
pub open spec fn coins_view(coins: Seq<Coin>) -> Seq<CoinView> {
    Seq::new(coins.len(), |i: int| coins[i]@)
}

/// Copies a list of coins.
pub fn clone_coins(coins: &Vec<Coin>) -> (r: Vec<Coin>)
    ensures
        coins_view(r@) == coins_view(coins@),
{
    let mut out: Vec<Coin> = Vec::new();
    let mut i: usize = 0;
    while i < coins.len()
        invariant
            i <= coins.len(),
            out.len() == i,
            forall|j: int| 0 <= j < i ==> out[j]@ == coins[j]@,
        decreases coins.len() - i,
    {
        out.push(coins[i].clone());
        i = i + 1;
    }
    assert(coins_view(out@) =~= coins_view(coins@));
    out
}

/// One donation as the ledger records it.
#[derive(Debug, PartialEq)]
pub struct DonationInfo {
    pub sender: AlpineUser,
    pub recipient: AlpineUser,
    pub amount: Vec<Coin>,
    pub message: String,
    /// The time of the transaction in nanoseconds, where a clock was at hand.
    pub timestamp: Option<u64>,
}

/// A [`DonationInfo`] with its texts as sequences of characters.
pub struct DonationView {
    pub sender: UserView,
    pub recipient: UserView,
    pub amount: Seq<CoinView>,
    pub message: Seq<char>,
    pub timestamp: Option<u64>,
}

impl View for DonationInfo {
    type V = DonationView;

    open spec fn view(&self) -> DonationView {
        DonationView {
            sender: self.sender@,
            recipient: self.recipient@,
            amount: coins_view(self.amount@),
            message: self.message@,
            timestamp: self.timestamp,
        }
    }
}

impl Clone for DonationInfo {
    fn clone(&self) -> (r: DonationInfo)
        ensures
            r@ == self@,
    {
        DonationInfo {
            sender: self.sender.clone(),
            recipient: self.recipient.clone(),
            amount: clone_coins(&self.amount),
            message: self.message.clone(),
            timestamp: self.timestamp,
        }
    }
}

/// The participant that a donation is filed under in the index of senders.
pub fn donation_sender_idx(d: &DonationInfo) -> (user: AlpineUser)
    ensures
        user@ == d@.sender,
{
    d.sender.clone()
}

/// The participant that a donation is filed under in the index of recipients.
pub fn donation_recipient_idx(d: &DonationInfo) -> (user: AlpineUser)
    ensures
        user@ == d@.recipient,
{
    d.recipient.clone()
}

/// The participant that a lookup by `name` gives: of the entries whose key is
/// `name` when case is ignored, the last one; none where no key is. In a
/// table, whose keys ascend, the last such entry is the one with the greatest
/// key, which is the first that a walk down the keys meets.
pub open spec fn resolve(s: Seq<(Seq<char>, UserView)>, name: Seq<char>) -> Option<UserView>
    decreases s.len(),
{
    if s.len() == 0 {
        None
    } else if same_ignoring_case(s.last().0, name) {
        Some(s.last().1)
    } else {
        resolve(s.drop_last(), name)
    }
}

/// Some key of `s` is `name` when case is ignored.
pub open spec fn taken(s: Seq<(Seq<char>, UserView)>, name: Seq<char>) -> bool {
    exists|i: int| 0 <= i < s.len() && same_ignoring_case(#[trigger] s[i].0, name)
}

/// A lookup by name finds a participant exactly where the name is taken, and
/// what it finds is stored under a key that is the name when case is ignored.
pub proof fn lemma_resolve_taken(s: Seq<(Seq<char>, UserView)>, name: Seq<char>)
    ensures
        resolve(s, name) is Some <==> taken(s, name),
        resolve(s, name) matches Some(u) ==> exists|i: int|
            0 <= i < s.len() && same_ignoring_case(#[trigger] s[i].0, name) && s[i].1 == u,
    decreases s.len(),
{
    if s.len() == 0 {
    } else if same_ignoring_case(s.last().0, name) {
        assert(same_ignoring_case(s[s.len() - 1].0, name));
    } else {
        let t = s.drop_last();
        lemma_resolve_taken(t, name);
        if taken(s, name) {
            let i = choose|i: int| 0 <= i < s.len() && same_ignoring_case(#[trigger] s[i].0, name);
            assert(same_ignoring_case(t[i].0, name));
        }
        if resolve(t, name) is Some {
            let u = resolve(t, name)->0;
            let i = choose|i: int|
                0 <= i < t.len() && same_ignoring_case(#[trigger] t[i].0, name) && t[i].1 == u;
            assert(same_ignoring_case(s[i].0, name) && s[i].1 == u);
        }
    }
}

/// In a table whose keys ascend, a lookup by name gives the entry with the
/// greatest key among those that are the name when case is ignored.
pub proof fn lemma_resolve_greatest(s: Seq<(Seq<char>, UserView)>, name: Seq<char>)
    requires
        ascending(s),
        resolve(s, name) is Some,
    ensures
        exists|i: int|
            {
                &&& 0 <= i < s.len()
                &&& same_ignoring_case(#[trigger] s[i].0, name)
                &&& resolve(s, name) == Some(s[i].1)
                &&& forall|j: int|
                    0 <= j < s.len() && j != i && same_ignoring_case(#[trigger] s[j].0, name)
                        ==> text_lt(s[j].0, s[i].0)
            },
    decreases s.len(),
{
    let last = s.len() - 1;
    if same_ignoring_case(s.last().0, name) {
        assert(same_ignoring_case(s[last].0, name));
        assert forall|j: int|
            0 <= j < s.len() && j != last && same_ignoring_case(
                #[trigger] s[j].0,
                name,
            ) implies text_lt(s[j].0, s[last].0) by {
            assert(text_lt(s[j].0, s[last].0));
        }
    } else {
        let t = s.drop_last();
        assert forall|a: int, b: int| 0 <= a < b < t.len() implies text_lt(
            #[trigger] t[a].0,
            #[trigger] t[b].0,
        ) by {
            assert(text_lt(s[a].0, s[b].0));
        }
        lemma_resolve_greatest(t, name);
        let i = choose|i: int|
            {
                &&& 0 <= i < t.len()
                &&& same_ignoring_case(#[trigger] t[i].0, name)
                &&& resolve(t, name) == Some(t[i].1)
                &&& forall|j: int|
                    0 <= j < t.len() && j != i && same_ignoring_case(#[trigger] t[j].0, name)
                        ==> text_lt(t[j].0, t[i].0)
            };
        assert(same_ignoring_case(s[i].0, name) && resolve(s, name) == Some(s[i].1));
        assert forall|j: int|
            0 <= j < s.len() && j != i && same_ignoring_case(
                #[trigger] s[j].0,
                name,
            ) implies text_lt(s[j].0, s[i].0) by {
            assert(j < t.len());
            assert(same_ignoring_case(t[j].0, name));
        }
    }
}

/// The application name that an instance is stamped with.
pub open spec fn contract_name() -> Seq<char> {
    "crates.io:alpine-pay"@
}

/// The name and version that an instance was stamped with.
#[derive(Debug, PartialEq)]
pub struct ContractVersion {
    pub contract: String,
    pub version: String,
}

/// The whole state: the count of donations ever made, the ledger, the
/// participants by username and by address, and the stamp of the instance.
pub struct AlpineContract {
    pub donation_count: u64,
    pub donations: DonationMap,
    pub usernames: UserTable,
    pub addresses: UserTable,
    pub version: Option<ContractVersion>,
}

/// An [`AlpineContract`] as plain values.
pub struct ContractView {
    pub donation_count: u64,
    pub donations: Seq<(u64, DonationView)>,
    pub usernames: Seq<(Seq<char>, UserView)>,
    pub addresses: Seq<(Seq<char>, UserView)>,
    /// The name and the version that the instance was stamped with.
    pub version: Option<(Seq<char>, Seq<char>)>,
}

impl View for AlpineContract {
    type V = ContractView;

    open spec fn view(&self) -> ContractView {
        ContractView {
            donation_count: self.donation_count,
            donations: self.donations@,
            usernames: self.usernames@,
            addresses: self.addresses@,
            version: match self.version {
                Some(v) => Some((v.contract@, v.version@)),
                None => None,
            },
        }
    }
}

impl Default for AlpineContract {
    fn default() -> (c: AlpineContract)
        ensures
            c@ == (ContractView {
                donation_count: 0,
                donations: Seq::empty(),
                usernames: Seq::empty(),
                addresses: Seq::empty(),
                version: None,
            }),
    {
        AlpineContract {
            donation_count: 0,
            donations: DonationMap::new(),
            usernames: UserTable::new(),
            addresses: UserTable::new(),
            version: None,
        }
    }
}

impl AlpineContract {
    /// The number of donations ever made.
    pub fn donation_count(&self) -> (n: u64)
        ensures
            n == self.donation_count,
    {
        self.donation_count
    }

    /// Raises the count of donations by one and hands out the new count, which
    /// is the id of the next donation. At the largest count that the machine
    /// holds nothing changes and the error is `Std`.
    pub fn increment_donations(&mut self) -> (r: Result<u64, ContractError>)
        ensures
            match r {
                Ok(id) => {
                    &&& old(self).donation_count < u64::MAX
                    &&& id == old(self).donation_count + 1
                    &&& final(self)@ == (ContractView { donation_count: id, ..old(self)@ })
                },
                Err(e) => {
                    &&& old(self).donation_count == u64::MAX
                    &&& final(self)@ == old(self)@
                    &&& e@ == ErrorView::Std { msg: "donation count overflow"@ }
                },
            },
    {
        match self.donation_count.checked_add(1) {
            Some(val) => {
                self.donation_count = val;
                Ok(val)
            },
            None => Err(ContractError::Std { msg: String::from_str("donation count overflow") }),
        }
    }

    /// Looks a participant up by username, ignoring case. Of several stored
    /// names that match, the greatest in the order of texts wins.
    pub fn find_alpine_username(&self, username: String) -> (r: Result<AlpineUser, ContractError>)
        ensures
            match r {
                Ok(user) => resolve(self.usernames@, username@) == Some(user@),
                Err(e) => {
                    &&& resolve(self.usernames@, username@) is None
                    &&& e@ == ErrorView::UserNotFound { user: username@ }
                },
            },
    {
        let n = self.usernames.len();
        let mut i: usize = n;
        assert(self.usernames@.take(n as int) =~= self.usernames@);
        while i > 0
            invariant
                n == self.usernames@.len(),
                i <= n,
                resolve(self.usernames@, username@) == resolve(
                    self.usernames@.take(i as int),
                    username@,
                ),
            decreases i,
        {
            let ghost cur = self.usernames@.take(i as int);
            assert(cur.drop_last() =~= self.usernames@.take(i - 1));
            assert(cur.last() == self.usernames@[i - 1]);
            i = i - 1;
            if eq_ignoring_case(self.usernames.key(i).as_str(), username.as_str()) {
                return Ok(self.usernames.user(i).clone());
            }
        }
        Err(ContractError::UserNotFound { user: username })
    }

    /// Whether some stored username is `username` when case is ignored.
    pub fn contains_username(&self, username: String) -> (found: bool)
        ensures
            found == taken(self.usernames@, username@),
    {
        let n = self.usernames.len();
        let mut i: usize = n;
        while i > 0
            invariant
                n == self.usernames@.len(),
                i <= n,
                forall|j: int| i <= j < n ==> !same_ignoring_case(
                    #[trigger] self.usernames@[j].0,
                    username@,
                ),
            decreases i,
        {
            i = i - 1;
            if eq_ignoring_case(self.usernames.key(i).as_str(), username.as_str()) {
                return true;
            }
        }
        false
    }

    /// Looks a participant up by the exact address.
    pub fn get_user_by_address(&self, address: String) -> (r: Result<AlpineUser, ContractError>)
        ensures
            match r {
                Ok(user) => lookup(self.addresses@, address@) == Some(user@),
                Err(e) => {
                    &&& lookup(self.addresses@, address@) is None
                    &&& e@ == ErrorView::UserNotFound { user: address@ }
                },
            },
    {
        match self.addresses.may_load(address.as_str()) {
            Some(user) => Ok(user),
            None => Err(ContractError::UserNotFound { user: address }),
        }
    }
}

} // verus!
