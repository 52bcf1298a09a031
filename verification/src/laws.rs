//! What holds of the registry and of the ledger, whatever they contain.

use crate::error::ErrorView;
use crate::execute::{named, registered, registration_fault, username_fault};
use crate::ledger::{ids_ascending, received_by, sent_by};
use crate::query::{lemma_sorted_by_time, sorted_by_time, time_ordered};
use crate::state::{resolve, taken, ContractView, DonationView, UserView};
use crate::table::{
    ascending, has_key, is_slot, lemma_put_ascending, lemma_slot_exists, lookup, put, slot,
};
use crate::text::same_ignoring_case;
use vstd::prelude::*;

verus! {

/// Where exactly one key of a table is `name` when case is ignored, a lookup
/// by `name` gives the participant stored under that key.
pub proof fn lemma_resolve_only_match(s: Seq<(Seq<char>, UserView)>, name: Seq<char>, i: int)
    requires
        0 <= i < s.len(),
        same_ignoring_case(s[i].0, name),
        forall|j: int| 0 <= j < s.len() && j != i ==> !same_ignoring_case(#[trigger] s[j].0, name),
    ensures
        resolve(s, name) == Some(s[i].1),
    decreases s.len(),
{
    if same_ignoring_case(s.last().0, name) {
        assert(s.last() == s[s.len() - 1]);
    } else {
        let t = s.drop_last();
        assert forall|j: int| 0 <= j < t.len() && j != i implies !same_ignoring_case(
            #[trigger] t[j].0,
            name,
        ) by {
            assert(t[j] == s[j]);
        }
        lemma_resolve_only_match(t, name, i);
    }
}

/// A username that was registered resolves to the participant it was
/// registered for, under that username, however the lookup is cased.
pub proof fn lemma_registered_resolves(
    c: ContractView,
    address_valid: bool,
    user: UserView,
    username: Seq<char>,
    asked: Seq<char>,
)
    requires
        ascending(c.usernames),
        registration_fault(c, address_valid, user, username) is None,
        same_ignoring_case(asked, username),
    ensures
        resolve(registered(c, user, username).usernames, asked) == Some(named(user, username)),
        named(user, username).username == username,
{
    let s = c.usernames;
    let t = put(s, username, named(user, username));
    lemma_slot_exists(s, username);
    let i = slot(s, username);
    assert(is_slot(s, username, i));
    if has_key(s, username) {
        assert(same_ignoring_case(s[i].0, username));
        assert(taken(s, username));
    }
    assert(t == s.insert(i, (username, named(user, username))));
    assert forall|j: int| 0 <= j < t.len() && j != i implies !same_ignoring_case(
        #[trigger] t[j].0,
        asked,
    ) by {
        let k = if j < i { j } else { j - 1 };
        assert(t[j] == s[k]);
        if same_ignoring_case(s[k].0, asked) {
            assert(same_ignoring_case(s[k].0, username));
            assert(taken(s, username));
        }
    }
    lemma_resolve_only_match(t, asked, i);
}

/// Once a username is registered, a registration under a name that differs
/// from it in case only is refused as not available, where no earlier rule
/// refuses it: the name passes the rules on usernames, and the participant
/// has no username, an address without an entry, and a valid address.
pub proof fn lemma_case_variant_refused(
    c: ContractView,
    first_valid: bool,
    first: UserView,
    first_name: Seq<char>,
    second_valid: bool,
    second: UserView,
    second_name: Seq<char>,
)
    requires
        ascending(c.usernames),
        registration_fault(c, first_valid, first, first_name) is None,
        same_ignoring_case(first_name, second_name),
        first_name != second_name,
        second.address != first.address,
        username_fault(second_name) is None,
        second.username.len() == 0,
        lookup(registered(c, first, first_name).addresses, second.address) is None,
        second_valid && second.address.len() > 0,
    ensures
        registration_fault(registered(c, first, first_name), second_valid, second, second_name)
            == Some(ErrorView::UsernameNotAvailable { username: second_name }),
{
    let t = registered(c, first, first_name).usernames;
    lemma_put_ascending(c.usernames, first_name, named(first, first_name));
    lemma_slot_exists(t, first_name);
    let i = slot(t, first_name);
    assert(is_slot(t, first_name, i));
    assert(has_key(t, first_name));
    assert(same_ignoring_case(t[i].0, second_name));
}

/// An address registers once: after a registration, every further
/// registration for the same address is refused, whatever name it asks for.
pub proof fn lemma_address_registers_once(
    c: ContractView,
    first_valid: bool,
    first: UserView,
    first_name: Seq<char>,
    second_valid: bool,
    second: UserView,
    second_name: Seq<char>,
)
    requires
        ascending(c.addresses),
        registration_fault(c, first_valid, first, first_name) is None,
        second.address == first.address,
    ensures
        registration_fault(registered(c, first, first_name), second_valid, second, second_name)
            is Some,
        username_fault(second_name) is None && second.username.len() == 0
            ==> registration_fault(
            registered(c, first, first_name),
            second_valid,
            second,
            second_name,
        ) == Some(ErrorView::UserNotFound { user: second.address }),
{
    lemma_put_ascending(c.addresses, first.address, named(first, first_name));
}

/// No two keys of `s` are the same when case is ignored.
pub open spec fn names_apart(s: Seq<(Seq<char>, UserView)>) -> bool {
    forall|i: int, j: int|
        0 <= i < j < s.len() ==> !same_ignoring_case(#[trigger] s[i].0, #[trigger] s[j].0)
}

/// A registration keeps the registry in order: the usernames stay apart when
/// case is ignored, both tables keep the order of their keys, and the
/// participant is found under the address too.
pub proof fn lemma_registration_keeps_registry(
    c: ContractView,
    address_valid: bool,
    user: UserView,
    username: Seq<char>,
)
    requires
        ascending(c.usernames),
        ascending(c.addresses),
        names_apart(c.usernames),
        registration_fault(c, address_valid, user, username) is None,
    ensures
        names_apart(registered(c, user, username).usernames),
        ascending(registered(c, user, username).usernames),
        ascending(registered(c, user, username).addresses),
        lookup(registered(c, user, username).addresses, user.address) == Some(
            named(user, username),
        ),
        registered(c, user, username).usernames.len() == c.usernames.len() + 1,
        registered(c, user, username).addresses.len() == c.addresses.len() + 1,
{
    let s = c.usernames;
    let t = put(s, username, named(user, username));
    lemma_put_ascending(s, username, named(user, username));
    lemma_put_ascending(c.addresses, user.address, named(user, username));
    lemma_slot_exists(s, username);
    let i = slot(s, username);
    assert(is_slot(s, username, i));
    if has_key(s, username) {
        assert(same_ignoring_case(s[i].0, username));
        assert(taken(s, username));
    }
    assert(t == s.insert(i, (username, named(user, username))));
    assert forall|a: int, b: int| 0 <= a < b < t.len() implies !same_ignoring_case(
        #[trigger] t[a].0,
        #[trigger] t[b].0,
    ) by {
        let ka = if a < i { a } else { a - 1 };
        let kb = if b < i { b } else { b - 1 };
        if a == i {
            assert(t[b] == s[kb]);
            if same_ignoring_case(s[kb].0, username) {
                assert(taken(s, username));
            }
        } else if b == i {
            assert(t[a] == s[ka]);
            if same_ignoring_case(s[ka].0, username) {
                assert(taken(s, username));
            }
        } else {
            assert(t[a] == s[ka] && t[b] == s[kb]);
            assert(!same_ignoring_case(s[ka].0, s[kb].0));
        }
    }
}

/// The id `id` stands in `s` at one position and no other.
pub open spec fn listed_once(s: Seq<(u64, DonationView)>, id: u64) -> bool {
    exists|j: int|
        0 <= j < s.len() && (#[trigger] s[j]).0 == id && forall|k: int|
            0 <= k < s.len() && (#[trigger] s[k]).0 == id ==> k == j
}

/// A selection of records by a test keeps the ascending order of the ids,
/// holds records of the ledger only, and holds each record that passes the test.
proof fn lemma_filter_ascending(
    s: Seq<(u64, DonationView)>,
    pred: spec_fn((u64, DonationView)) -> bool,
)
    requires
        ids_ascending(s),
    ensures
        ids_ascending(s.filter(pred)),
        forall|j: int|
            0 <= j < s.filter(pred).len() ==> s.contains(#[trigger] s.filter(pred)[j]) && pred(
                s.filter(pred)[j],
            ),
        forall|i: int| 0 <= i < s.len() && pred(s[i]) ==> s.filter(pred).contains(#[trigger] s[i]),
    decreases s.len(),
{
    reveal(Seq::filter);
    if s.len() > 0 {
        let t = s.drop_last();
        let f = t.filter(pred);
        assert forall|a: int, b: int| 0 <= a < b < t.len() implies (#[trigger] t[a]).0 < (
        #[trigger] t[b]).0 by {
            assert(s[a].0 < s[b].0);
        }
        lemma_filter_ascending(t, pred);
        let g = s.filter(pred);
        assert forall|j: int| 0 <= j < f.len() implies s.contains(#[trigger] f[j]) && f[j].0
            < s.last().0 by {
            assert(t.contains(f[j]));
            let k = choose|k: int| 0 <= k < t.len() && t[k] == f[j];
            assert(s[k] == f[j]);
            assert(s[k].0 < s[s.len() - 1].0);
        }
        assert forall|j: int| 0 <= j < g.len() implies s.contains(#[trigger] g[j]) && pred(
            g[j],
        ) by {
            if j < f.len() {
                assert(g[j] == f[j]);
            } else {
                assert(g[j] == s[s.len() - 1]);
            }
        }
        assert forall|a: int, b: int| 0 <= a < b < g.len() implies (#[trigger] g[a]).0 < (
        #[trigger] g[b]).0 by {
            assert(g[a] == f[a]);
            if b < f.len() {
                assert(g[b] == f[b]);
            }
        }
        assert forall|i: int| 0 <= i < s.len() && pred(s[i]) implies g.contains(
            #[trigger] s[i],
        ) by {
            if i < t.len() {
                assert(t[i] == s[i]);
                assert(f.contains(t[i]));
                let k = choose|k: int| 0 <= k < f.len() && f[k] == t[i];
                assert(g[k] == s[i]);
            } else {
                assert(g[g.len() - 1] == s[i]);
            }
        }
    }
}

/// Of a selection of records of a ledger, listed by time, the id of each
/// selected record stands exactly once in the listing.
proof fn lemma_selected_once(
    s: Seq<(u64, DonationView)>,
    pred: spec_fn((u64, DonationView)) -> bool,
    i: int,
)
    requires
        ids_ascending(s),
        0 <= i < s.len(),
        pred(s[i]),
    ensures
        listed_once(sorted_by_time(s.filter(pred)), s[i].0),
{
    broadcast use vstd::seq_lib::group_to_multiset_ensures;

    let f = s.filter(pred);
    let l = sorted_by_time(f);
    lemma_filter_ascending(s, pred);
    lemma_sorted_by_time(f);
    // every record of the listing is a record of the ledger
    assert forall|k: int| 0 <= k < l.len() implies s.contains(#[trigger] l[k]) by {
        assert(l.to_multiset().count(l[k]) > 0);
        assert(f.to_multiset().count(l[k]) > 0);
        let m = choose|m: int| 0 <= m < f.len() && f[m] == l[k];
        assert(s.contains(f[m]));
    }
    // the selected record is in the listing
    assert(f.contains(s[i]));
    assert(f.to_multiset().count(s[i]) > 0);
    assert(l.to_multiset().count(s[i]) > 0);
    let j = choose|j: int| 0 <= j < l.len() && l[j] == s[i];
    // the selection holds no record twice, so neither does the listing
    assert(f.no_duplicates()) by {
        assert forall|a: int, b: int| 0 <= a < f.len() && 0 <= b < f.len() && a != b implies f[a]
            != f[b] by {
            if a < b {
                assert(f[a].0 < f[b].0);
            } else {
                assert(f[b].0 < f[a].0);
            }
        }
    }
    f.lemma_multiset_has_no_duplicates();
    l.lemma_multiset_has_no_duplicates_conv();
    assert forall|k: int| 0 <= k < l.len() && (#[trigger] l[k]).0 == s[i].0 implies k == j by {
        assert(s.contains(l[k]));
        let m = choose|m: int| 0 <= m < s.len() && s[m] == l[k];
        if m < i {
            assert(s[m].0 < s[i].0);
        } else if i < m {
            assert(s[i].0 < s[m].0);
        }
        assert(l[k] == l[j]);
    }
    assert(l[j].0 == s[i].0);
}

/// The indexes agree with the records: the listing of what the sender of a
/// record sent holds the id of that record exactly once, and so does the
/// listing of what its recipient received.
pub proof fn lemma_index_consistent(s: Seq<(u64, DonationView)>, i: int)
    requires
        ids_ascending(s),
        0 <= i < s.len(),
    ensures
        listed_once(sorted_by_time(sent_by(s, s[i].1.sender.address)), s[i].0),
        listed_once(sorted_by_time(received_by(s, s[i].1.recipient.address)), s[i].0),
{
    let from = s[i].1.sender.address;
    let to = s[i].1.recipient.address;
    lemma_selected_once(s, |e: (u64, DonationView)| e.1.sender.address == from, i);
    lemma_selected_once(s, |e: (u64, DonationView)| e.1.recipient.address == to, i);
}

/// A listing by time is ordered by time and holds the selected records, each
/// as often as the selection does.
pub proof fn lemma_listing_chronological(s: Seq<(u64, DonationView)>, address: Seq<char>)
    ensures
        time_ordered(sorted_by_time(sent_by(s, address))),
        sorted_by_time(sent_by(s, address)).to_multiset() == sent_by(s, address).to_multiset(),
        time_ordered(sorted_by_time(received_by(s, address))),
        sorted_by_time(received_by(s, address)).to_multiset() == received_by(
            s,
            address,
        ).to_multiset(),
{
    lemma_sorted_by_time(sent_by(s, address));
    lemma_sorted_by_time(received_by(s, address));
}

/// Ids count up from one. Where `ids` holds what successive calls for the
/// next id hand out, the first on a ledger without donations, the call number
/// `k` hands out `k`: the ids rise strictly and none comes twice.
pub proof fn lemma_ids_count_up(ids: Seq<u64>)
    requires
        ids.len() > 0 ==> ids[0] == 1,
        forall|k: int| 0 <= k < ids.len() - 1 ==> #[trigger] ids[k + 1] == ids[k] + 1,
    ensures
        forall|k: int| 0 <= k < ids.len() ==> #[trigger] ids[k] == k + 1,
        forall|a: int, b: int| 0 <= a < b < ids.len() ==> ids[a] < ids[b],
    decreases ids.len(),
{
    if ids.len() > 1 {
        let t = ids.drop_last();
        assert forall|k: int| 0 <= k < t.len() - 1 implies #[trigger] t[k + 1] == t[k] + 1 by {
            assert(ids[k + 1] == ids[k] + 1);
        }
        lemma_ids_count_up(t);
        let n = ids.len() - 2;
        assert(ids[n + 1] == ids[n] + 1);
        assert(t[n] == n + 1);
        assert forall|k: int| 0 <= k < ids.len() implies #[trigger] ids[k] == k + 1 by {
            if k < t.len() {
                assert(t[k] == k + 1);
            }
        }
    }
}

} // verus!
