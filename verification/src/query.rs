//! The requests that only read, and the order in which donations are listed.

use crate::error::{ContractError, ErrorView};
use crate::ledger::{received_by, record_of, records_view, sent_by};
use crate::msg::{
    AlpineUserResponse, DonationCountResponse, Env, MultiDonationResponse, MultiUserResponse,
    QueryMsg, QueryResponse, SingleDonationResponse, UsernameAvailableResponse,
};
use crate::state::{
    resolve, taken, AlpineContract, AlpineUser, ContractView, DonationInfo, DonationView, UserView,
};
use crate::table::{ascending, lookup};
use crate::traits::{Donation, DonationQuery};
use vstd::prelude::*;

verus! {

/// The time that a record is listed by: its timestamp, and the earliest time
/// there is for a record without one.
pub open spec fn time_of(e: (u64, DonationView)) -> u64 {
    match e.1.timestamp {
        Some(t) => t,
        None => 0,
    }
}

/// The times of `s` never fall.
pub open spec fn time_ordered(s: Seq<(u64, DonationView)>) -> bool {
    forall|i: int, j: int| 0 <= i < j < s.len() ==> time_of(#[trigger] s[i]) <= time_of(#[trigger] s[j])
}

/// `s` with `e` put behind the last record that is not later than `e`.
pub open spec fn insert_by_time(s: Seq<(u64, DonationView)>, e: (u64, DonationView)) -> Seq<
    (u64, DonationView),
>
    decreases s.len(),
{
    if s.len() == 0 {
        seq![e]
    } else if time_of(s.last()) <= time_of(e) {
        s.push(e)
    } else {
        insert_by_time(s.drop_last(), e).push(s.last())
    }
}

/// The records of `s` by ascending time; records of one time keep the order
/// that they have in `s`.
pub open spec fn sorted_by_time(s: Seq<(u64, DonationView)>) -> Seq<(u64, DonationView)>
    decreases s.len(),
{
    if s.len() == 0 {
        s
    } else {
        insert_by_time(sorted_by_time(s.drop_last()), s.last())
    }
}

/// Where every record from `j` on is later than `e`, and the record before `j`
/// is not, `e` goes to position `j`.
pub proof fn lemma_insert_at(s: Seq<(u64, DonationView)>, e: (u64, DonationView), j: int)
    requires
        0 <= j <= s.len(),
        forall|k: int| j <= k < s.len() ==> time_of(#[trigger] s[k]) > time_of(e),
        j > 0 ==> time_of(s[j - 1]) <= time_of(e),
    ensures
        insert_by_time(s, e) == s.insert(j, e),
    decreases s.len() - j,
{
    if j == s.len() {
        assert(s.push(e) =~= s.insert(j, e));
        if s.len() == 0 {
            assert(seq![e] =~= s.insert(j, e));
        }
    } else {
        assert(time_of(s[s.len() - 1]) > time_of(e));
        let t = s.drop_last();
        lemma_insert_at(t, e, j);
        assert(t.insert(j, e).push(s.last()) =~= s.insert(j, e));
    }
}

/// Putting a record into a list that is ordered by time leaves it ordered,
/// one longer, and with that record added to what it held.
pub proof fn lemma_insert_by_time(s: Seq<(u64, DonationView)>, e: (u64, DonationView))
    requires
        time_ordered(s),
    ensures
        time_ordered(insert_by_time(s, e)),
        insert_by_time(s, e).len() == s.len() + 1,
        insert_by_time(s, e).to_multiset() == s.to_multiset().insert(e),
    decreases s.len(),
{
    broadcast use vstd::seq_lib::group_to_multiset_ensures;

    if s.len() == 0 {
        assert(s =~= Seq::empty());
        assert(seq![e] =~= s.push(e));
    } else if time_of(s.last()) <= time_of(e) {
        let r = s.push(e);
        assert forall|i: int, j: int| 0 <= i < j < r.len() implies time_of(#[trigger] r[i])
            <= time_of(#[trigger] r[j]) by {
            if j == s.len() {
                if i < s.len() - 1 {
                    assert(time_of(s[i]) <= time_of(s[s.len() - 1]));
                }
            } else {
                assert(time_of(s[i]) <= time_of(s[j]));
            }
        }
    } else {
        let t = s.drop_last();
        assert forall|i: int, j: int| 0 <= i < j < t.len() implies time_of(#[trigger] t[i])
            <= time_of(#[trigger] t[j]) by {
            assert(time_of(s[i]) <= time_of(s[j]));
        }
        lemma_insert_by_time(t, e);
        let u = insert_by_time(t, e);
        let r = u.push(s.last());
        assert(s =~= t.push(s.last()));
        assert(s.to_multiset() == t.to_multiset().insert(s.last()));
        assert(r.to_multiset() =~= s.to_multiset().insert(e));
        // every record of `u` is `e` or a record of `t`, so none is later than the last of `s`
        assert forall|i: int| 0 <= i < u.len() implies time_of(#[trigger] u[i]) <= time_of(
            s.last(),
        ) by {
            assert(u.to_multiset().count(u[i]) > 0);
            if u[i] != e {
                assert(t.to_multiset().count(u[i]) > 0);
                let k = choose|k: int| 0 <= k < t.len() && t[k] == u[i];
                assert(time_of(s[k]) <= time_of(s[s.len() - 1]));
            }
        }
        assert forall|i: int, j: int| 0 <= i < j < r.len() implies time_of(#[trigger] r[i])
            <= time_of(#[trigger] r[j]) by {
            if j < u.len() {
                assert(time_of(u[i]) <= time_of(u[j]));
            }
        }
    }
}

/// Listing by time gives the same records, ordered by time.
pub proof fn lemma_sorted_by_time(s: Seq<(u64, DonationView)>)
    ensures
        time_ordered(sorted_by_time(s)),
        sorted_by_time(s).len() == s.len(),
        sorted_by_time(s).to_multiset() == s.to_multiset(),
    decreases s.len(),
{
    broadcast use vstd::seq_lib::group_to_multiset_ensures;

    if s.len() == 0 {
    } else {
        let t = s.drop_last();
        lemma_sorted_by_time(t);
        lemma_insert_by_time(sorted_by_time(t), s.last());
        assert(s =~= t.push(s.last()));
    }
}

/// The records of `s` that are listed under the time `t`, in the order of `s`.
pub open spec fn at_time(s: Seq<(u64, DonationView)>, t: u64) -> Seq<(u64, DonationView)> {
    s.filter(|e: (u64, DonationView)| time_of(e) == t)
}

/// Putting a record into a list changes, among the records of one time, only
/// this: the new record comes last among those of its own time.
pub proof fn lemma_insert_keeps_order(s: Seq<(u64, DonationView)>, e: (u64, DonationView), t: u64)
    ensures
        at_time(insert_by_time(s, e), t) == if time_of(e) == t {
            at_time(s, t).push(e)
        } else {
            at_time(s, t)
        },
    decreases s.len(),
{
    reveal(Seq::filter);
    if s.len() == 0 {
        assert(seq![e].drop_last() =~= s);
        assert(seq![e].last() == e);
    } else if time_of(s.last()) <= time_of(e) {
        assert(s.push(e).drop_last() =~= s);
    } else {
        let u = insert_by_time(s.drop_last(), e);
        lemma_insert_keeps_order(s.drop_last(), e, t);
        assert(u.push(s.last()).drop_last() =~= u);
    }
}

/// Listing by time is stable: the records of one time come in the order in
/// which they came before.
pub proof fn lemma_sorted_by_time_stable(s: Seq<(u64, DonationView)>, t: u64)
    ensures
        at_time(sorted_by_time(s), t) == at_time(s, t),
    decreases s.len(),
{
    reveal(Seq::filter);
    if s.len() > 0 {
        lemma_sorted_by_time_stable(s.drop_last(), t);
        lemma_insert_keeps_order(sorted_by_time(s.drop_last()), s.last(), t);
    }
}

/// Sorts donations by their time, oldest first. Donations of one time stay
/// in the order in which they came.
pub fn sort_donations_by_date(donations: Vec<(u64, DonationInfo)>) -> (out: Vec<
    (u64, DonationInfo),
>)
    ensures
        records_view(out@) == sorted_by_time(records_view(donations@)),
        time_ordered(records_view(out@)),
        records_view(out@).to_multiset() == records_view(donations@).to_multiset(),
        out@.len() == donations@.len(),
{
    let ghost input = records_view(donations@);
    let n = donations.len();
    let mut out: Vec<(u64, DonationInfo)> = Vec::new();
    let mut i: usize = 0;
    assert(input.take(0) =~= Seq::empty());
    assert(records_view(out@) =~= Seq::empty());
    while i < n
        invariant
            n == donations@.len(),
            input == records_view(donations@),
            i <= n,
            records_view(out@) == sorted_by_time(input.take(i as int)),
            out@.len() == i,
        decreases n - i,
    {
        let e = (donations[i].0, donations[i].1.clone());
        let t: u64 = match e.1.timestamp {
            Some(t) => t,
            None => 0,
        };
        let ghost prev = records_view(out@);
        let mut j: usize = out.len();
        while j > 0 && stamp(&out[j - 1].1) > t
            invariant
                j <= out@.len(),
                prev == records_view(out@),
                t == time_of((e.0, e.1@)),
                forall|k: int| j <= k < prev.len() ==> time_of(#[trigger] prev[k]) > t,
            decreases j,
        {
            j = j - 1;
        }
        proof {
            lemma_insert_at(prev, (e.0, e.1@), j as int);
            assert(input.take(i + 1).drop_last() =~= input.take(i as int));
            assert(input.take(i + 1).last() == (e.0, e.1@));
        }
        out.insert(j, e);
        assert(records_view(out@) =~= prev.insert(j as int, (e.0, e.1@)));
        i = i + 1;
    }
    proof {
        assert(input.take(n as int) =~= input);
        lemma_sorted_by_time(input);
    }
    out
}

/// The time that a donation is listed by.
fn stamp(d: &DonationInfo) -> (t: u64)
    ensures
        t == time_of((0, d@)),
{
    match d.timestamp {
        Some(t) => t,
        None => 0,
    }
}

/// The views of a list of participants, in order.
pub open spec fn users_view(v: Seq<AlpineUser>) -> Seq<UserView> {
    Seq::new(v.len(), |i: int| v[i]@)
}

/// The donations that the participant registered as `sender` sent, oldest first.
pub open spec fn sent_listing(
    donations: Seq<(u64, DonationView)>,
    usernames: Seq<(Seq<char>, UserView)>,
    sender: Seq<char>,
) -> Seq<(u64, DonationView)> {
    sorted_by_time(sent_by(donations, resolve(usernames, sender)->0.address))
}

/// The donations that the participant registered as `recipient` received, oldest first.
pub open spec fn received_listing(
    donations: Seq<(u64, DonationView)>,
    usernames: Seq<(Seq<char>, UserView)>,
    recipient: Seq<char>,
) -> Seq<(u64, DonationView)> {
    sorted_by_time(received_by(donations, resolve(usernames, recipient)->0.address))
}

/// The participants of a table, in the order of its entries.
pub open spec fn listed_users(usernames: Seq<(Seq<char>, UserView)>) -> Seq<UserView> {
    Seq::new(usernames.len(), |i: int| usernames[i].1)
}

/// The participant registered for `address`, or the anonymous one of that address.
pub open spec fn user_at(addresses: Seq<(Seq<char>, UserView)>, address: Seq<char>) -> UserView {
    match lookup(addresses, address) {
        Some(user) => user,
        None => UserView { username: Seq::empty(), address },
    }
}

/// The participant registered as `username`, or the empty one.
pub open spec fn user_named(usernames: Seq<(Seq<char>, UserView)>, username: Seq<char>) -> UserView {
    match resolve(usernames, username) {
        Some(user) => user,
        None => UserView { username: Seq::empty(), address: Seq::empty() },
    }
}

/// The text of the error for an id under which no donation is recorded.
pub open spec fn no_such_donation() -> Seq<char> {
    "donation not found"@
}

impl DonationQuery for AlpineContract {
    open spec fn knows(&self, username: Seq<char>) -> bool {
        resolve(self.usernames@, username) is Some
    }

    open spec fn has_address(&self, address: Seq<char>) -> bool {
        lookup(self.addresses@, address) is Some
    }

    fn get_sent_donations(&self, sender: String) -> (r: MultiDonationResponse)
        ensures
            records_view(r.donations@) == sent_listing(self.donations@, self.usernames@, sender@),
            time_ordered(records_view(r.donations@)),
    {
        let found = self.find_alpine_username(sender);
        match found {
            Ok(user) => {
                let listed = self.donations.sent_by(&user.address);
                MultiDonationResponse { donations: sort_donations_by_date(listed) }
            },
            Err(_) => MultiDonationResponse { donations: Vec::new() },
        }
    }

    fn get_received_donations(&self, recipient: String) -> (r: MultiDonationResponse)
        ensures
            records_view(r.donations@) == received_listing(
                self.donations@,
                self.usernames@,
                recipient@,
            ),
            time_ordered(records_view(r.donations@)),
    {
        let found = self.find_alpine_username(recipient);
        match found {
            Ok(user) => {
                let listed = self.donations.received_by(&user.address);
                MultiDonationResponse { donations: sort_donations_by_date(listed) }
            },
            Err(_) => MultiDonationResponse { donations: Vec::new() },
        }
    }

    fn get_single_donation(&self, id: u64) -> (r: Result<SingleDonationResponse, ContractError>)
        ensures
            match r {
                Ok(found) => record_of(self.donations@, id) == Some(found.donation@),
                Err(e) => {
                    &&& record_of(self.donations@, id) is None
                    &&& e@ == ErrorView::Std { msg: no_such_donation() }
                },
            },
    {
        match self.donations.load(id) {
            Some(donation) => Ok(SingleDonationResponse { donation }),
            None => Err(ContractError::Std { msg: String::from_str("donation not found") }),
        }
    }

    fn get_donation_count(&self) -> (r: DonationCountResponse)
        ensures
            r.count == self.donation_count,
    {
        DonationCountResponse { count: self.donation_count() }
    }

    fn is_username_available(&self, username: String) -> (r: UsernameAvailableResponse)
        ensures
            r.is_available == !taken(self.usernames@, username@),
    {
        UsernameAvailableResponse { is_available: !self.contains_username(username) }
    }

    fn get_all_users(&self) -> (r: MultiUserResponse)
        ensures
            users_view(r.users@) == listed_users(self.usernames@),
            ascending(self.usernames@),
    {
        let n = self.usernames.len();
        let mut users: Vec<AlpineUser> = Vec::new();
        let mut i: usize = 0;
        while i < n
            invariant
                n == self.usernames@.len(),
                i <= n,
                users@.len() == i,
                forall|j: int| 0 <= j < i ==> (#[trigger] users@[j])@ == self.usernames@[j].1,
            decreases n - i,
        {
            users.push(self.usernames.user(i).clone());
            i = i + 1;
        }
        assert(users_view(users@) =~= listed_users(self.usernames@));
        MultiUserResponse { users }
    }

    fn get_user_by_addr(&self, address_valid: bool, address: String) -> (r: AlpineUserResponse)
        ensures
            r.user@ == user_at(self.addresses@, address@),
    {
        match self.addresses.may_load(address.as_str()) {
            Some(user) => AlpineUserResponse { user },
            None => match AlpineUser::new(address_valid, address, None) {
                Ok(user) => AlpineUserResponse { user },
                Err(_) => AlpineUserResponse { user: AlpineUser::empty() },
            },
        }
    }

    fn get_user_by_name(&self, username: String) -> (r: AlpineUserResponse)
        ensures
            r.user@ == user_named(self.usernames@, username@),
    {
        match self.find_alpine_username(username) {
            Ok(user) => AlpineUserResponse { user },
            Err(_) => AlpineUserResponse { user: AlpineUser::empty() },
        }
    }
}

/// A read request can be answered: a listing names a registered participant,
/// and a lookup by address names a registered or a valid address.
pub open spec fn query_ready(c: ContractView, address_valid: bool, msg: QueryMsg) -> bool {
    match msg {
        QueryMsg::GetSentDonations { sender } => resolve(c.usernames, sender@) is Some,
        QueryMsg::GetReceivedDonations { recipient } => resolve(c.usernames, recipient@) is Some,
        QueryMsg::GetUserByAddr { address } => lookup(c.addresses, address@) is Some || (
        address_valid && address@.len() > 0),
        _ => true,
    }
}

/// The answer that a read request is owed, by its kind.
pub open spec fn query_outcome(
    c: ContractView,
    msg: QueryMsg,
    r: Result<QueryResponse, ContractError>,
) -> bool {
    match msg {
        QueryMsg::GetSentDonations { sender } => {
            &&& r matches Ok(QueryResponse::Donations(found))
            &&& records_view(found.donations@) == sent_listing(c.donations, c.usernames, sender@)
        },
        QueryMsg::GetReceivedDonations { recipient } => {
            &&& r matches Ok(QueryResponse::Donations(found))
            &&& records_view(found.donations@) == received_listing(
                c.donations,
                c.usernames,
                recipient@,
            )
        },
        QueryMsg::GetSingleDonation { id } => match r {
            Ok(QueryResponse::Donation(found)) => record_of(c.donations, id) == Some(
                found.donation@,
            ),
            Ok(_) => false,
            Err(e) => {
                &&& record_of(c.donations, id) is None
                &&& e@ == ErrorView::Std { msg: no_such_donation() }
            },
        },
        QueryMsg::GetDonationCount {  } => {
            &&& r matches Ok(QueryResponse::DonationCount(found))
            &&& found.count == c.donation_count
        },
        QueryMsg::IsUsernameAvailable { username } => {
            &&& r matches Ok(QueryResponse::UsernameAvailable(found))
            &&& found.is_available == !taken(c.usernames, username@)
        },
        QueryMsg::GetAllUsers {  } => {
            &&& r matches Ok(QueryResponse::Users(found))
            &&& users_view(found.users@) == listed_users(c.usernames)
        },
        QueryMsg::GetUserByAddr { address } => {
            &&& r matches Ok(QueryResponse::User(found))
            &&& found.user@ == user_at(c.addresses, address@)
        },
        QueryMsg::GetUserByName { username } => {
            &&& r matches Ok(QueryResponse::User(found))
            &&& found.user@ == user_named(c.usernames, username@)
        },
    }
}

impl Donation for AlpineContract {

}

impl AlpineContract {
    /// Routes a read request. `address_valid` is what the address validator
    /// said of the address in a lookup by address; other requests ignore it.
    pub fn query(&self, address_valid: bool, env: Env, msg: QueryMsg) -> (r: Result<
        QueryResponse,
        ContractError,
    >)
        requires
            query_ready(self@, address_valid, msg),
        ensures
            query_outcome(self@, msg, r),
    {
        match msg {
            QueryMsg::GetSentDonations { sender } => Ok(
                QueryResponse::Donations(self.get_sent_donations(sender)),
            ),
            QueryMsg::GetReceivedDonations { recipient } => Ok(
                QueryResponse::Donations(self.get_received_donations(recipient)),
            ),
            QueryMsg::GetSingleDonation { id } => match self.get_single_donation(id) {
                Ok(found) => Ok(QueryResponse::Donation(found)),
                Err(e) => Err(e),
            },
            QueryMsg::GetDonationCount {  } => Ok(
                QueryResponse::DonationCount(self.get_donation_count()),
            ),
            QueryMsg::IsUsernameAvailable { username } => Ok(
                QueryResponse::UsernameAvailable(self.is_username_available(username)),
            ),
            QueryMsg::GetAllUsers {  } => Ok(QueryResponse::Users(self.get_all_users())),
            QueryMsg::GetUserByAddr { address } => Ok(
                QueryResponse::User(self.get_user_by_addr(address_valid, address)),
            ),
            QueryMsg::GetUserByName { username } => Ok(
                QueryResponse::User(self.get_user_by_name(username)),
            ),
        }
    }
}

} // verus!
