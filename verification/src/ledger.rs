//! The donation ledger: records under their ids, with an index of senders and
//! one of recipients that are kept in step with the records.

use crate::error::{ContractError, ErrorView};
use crate::state::{DonationInfo, DonationView};
use vstd::prelude::*;

verus! {

/// The ids of `s` ascend strictly, so no id stands twice.
pub open spec fn ids_ascending(s: Seq<(u64, DonationView)>) -> bool {
    forall|i: int, j: int| 0 <= i < j < s.len() ==> (#[trigger] s[i]).0 < (#[trigger] s[j]).0
}

/// `i` is where id `id` belongs in `s`: every record before `i` has a smaller
/// id, and the record at `i`, if there is one, has not.
pub open spec fn is_id_slot(s: Seq<(u64, DonationView)>, id: u64, i: int) -> bool {
    &&& 0 <= i <= s.len()
    &&& forall|j: int| 0 <= j < i ==> (#[trigger] s[j]).0 < id
    &&& i < s.len() ==> s[i].0 >= id
}

/// The place of `id` in `s`.
pub open spec fn id_slot(s: Seq<(u64, DonationView)>, id: u64) -> int {
    choose|i: int| is_id_slot(s, id, i)
}

/// A record stands in `s` under `id`.
pub open spec fn has_id(s: Seq<(u64, DonationView)>, id: u64) -> bool {
    id_slot(s, id) < s.len() && s[id_slot(s, id)].0 == id
}

/// The record stored under `id`, if any.
pub open spec fn record_of(s: Seq<(u64, DonationView)>, id: u64) -> Option<DonationView> {
    if has_id(s, id) {
        Some(s[id_slot(s, id)].1)
    } else {
        None
    }
}

/// `s` with the record `d` added under `id`, where the order of the ids asks for it.
pub open spec fn with_record(s: Seq<(u64, DonationView)>, id: u64, d: DonationView) -> Seq<
    (u64, DonationView),
> {
    s.insert(id_slot(s, id), (id, d))
}

/// The records of `s` that `address` sent, in the order of `s`.
pub open spec fn sent_by(s: Seq<(u64, DonationView)>, address: Seq<char>) -> Seq<
    (u64, DonationView),
> {
    s.filter(|e: (u64, DonationView)| e.1.sender.address == address)
}

/// The records of `s` that `address` received, in the order of `s`.
pub open spec fn received_by(s: Seq<(u64, DonationView)>, address: Seq<char>) -> Seq<
    (u64, DonationView),
> {
    s.filter(|e: (u64, DonationView)| e.1.recipient.address == address)
}

/// An id has a place at `n` or behind it, where every record before `n` has a smaller id.
proof fn lemma_id_slot_from(s: Seq<(u64, DonationView)>, id: u64, n: int)
    requires
        0 <= n <= s.len(),
        forall|j: int| 0 <= j < n ==> (#[trigger] s[j]).0 < id,
    ensures
        exists|i: int| is_id_slot(s, id, i),
    decreases s.len() - n,
{
    if n == s.len() || s[n].0 >= id {
        assert(is_id_slot(s, id, n));
    } else {
        lemma_id_slot_from(s, id, n + 1);
    }
}

/// Every id has a place in every ledger.
pub proof fn lemma_id_slot_exists(s: Seq<(u64, DonationView)>, id: u64)
    ensures
        is_id_slot(s, id, id_slot(s, id)),
{
    lemma_id_slot_from(s, id, 0);
}

/// In a ledger whose ids ascend, a record stands under an id exactly where a
/// record has that id, and it is the record found under the id.
pub proof fn lemma_record_of(s: Seq<(u64, DonationView)>, id: u64)
    requires
        ids_ascending(s),
    ensures
        has_id(s, id) <==> exists|i: int| 0 <= i < s.len() && (#[trigger] s[i]).0 == id,
        forall|i: int|
            0 <= i < s.len() && (#[trigger] s[i]).0 == id ==> record_of(s, id) == Some(s[i].1),
{
    lemma_id_slot_exists(s, id);
    assert forall|i: int| 0 <= i < s.len() && (#[trigger] s[i]).0 == id implies id_slot(s, id)
        == i by {
        assert forall|j: int| 0 <= j < i implies (#[trigger] s[j]).0 < id by {
            assert(s[j].0 < s[i].0);
        }
        lemma_id_slot_is(s, id, i);
    }
    if has_id(s, id) {
        assert(s[id_slot(s, id)].0 == id);
    }
}

/// Only one index is the place of an id.
pub proof fn lemma_id_slot_is(s: Seq<(u64, DonationView)>, id: u64, i: int)
    requires
        is_id_slot(s, id, i),
    ensures
        id_slot(s, id) == i,
{
    let c = id_slot(s, id);
    assert(is_id_slot(s, id, c));
    if c < i {
        assert(s[c].0 < id);
    } else if i < c {
        assert(s[i].0 < id);
    }
}

/// Adding a record under an id that is free keeps the order of the ledger,
/// and the record is found again under its id.
pub proof fn lemma_with_record(s: Seq<(u64, DonationView)>, id: u64, d: DonationView)
    requires
        ids_ascending(s),
        !has_id(s, id),
    ensures
        ids_ascending(with_record(s, id, d)),
        record_of(with_record(s, id, d), id) == Some(d),
        with_record(s, id, d).len() == s.len() + 1,
{
    lemma_id_slot_exists(s, id);
    let i = id_slot(s, id);
    let t = with_record(s, id, d);
    assert(is_id_slot(s, id, i));
    assert forall|b: int| i <= b < s.len() implies id < (#[trigger] s[b]).0 by {
        if b > i {
            assert(s[i].0 < s[b].0);
        }
    }
    assert forall|a: int, b: int| 0 <= a < b < t.len() implies (#[trigger] t[a]).0 < (
    #[trigger] t[b]).0 by {
        if b < i {
            assert(s[a].0 < s[b].0);
        } else if b == i {
            assert(s[a].0 < id);
        } else if a == i {
            assert(id < s[b - 1].0);
        } else if a < i {
            assert(s[a].0 < s[b - 1].0);
        } else {
            assert(s[a - 1].0 < s[b - 1].0);
        }
    }
    assert(is_id_slot(t, id, i)) by {
        assert forall|j: int| 0 <= j < i implies (#[trigger] t[j]).0 < id by {
            assert(s[j].0 < id);
        }
    }
    lemma_id_slot_is(t, id, i);
}

/// The views of a list of records with their ids, in order.
pub open spec fn records_view(v: Seq<(u64, DonationInfo)>) -> Seq<(u64, DonationView)> {
    Seq::new(v.len(), |i: int| (v[i].0, v[i].1@))
}

/// The two indexes of the ledger. Each holds, for every record and in the
/// order of the records, the address it is filed under and the record's id.
pub struct DonationIndexes {
    sender: Vec<(String, u64)>,
    recipient: Vec<(String, u64)>,
}

/// The ledger: donation records under their ids, in ascending order of the
/// ids, and the indexes by sender and by recipient.
pub struct DonationMap {
    records: Vec<(u64, DonationInfo)>,
    idx: DonationIndexes,
}

impl View for DonationMap {
    type V = Seq<(u64, DonationView)>;

    closed spec fn view(&self) -> Seq<(u64, DonationView)> {
        records_view(self.records@)
    }
}

impl DonationMap {
    #[verifier::type_invariant]
    spec fn consistent(self) -> bool {
        &&& ids_ascending(self@)
        &&& self.idx.sender@.len() == self.records@.len()
        &&& self.idx.recipient@.len() == self.records@.len()
        &&& forall|i: int|
            0 <= i < self.records@.len() ==> {
                &&& (#[trigger] self.idx.sender@[i]).0@ == self.records@[i].1@.sender.address
                &&& self.idx.sender@[i].1 == self.records@[i].0
            }
        &&& forall|i: int|
            0 <= i < self.records@.len() ==> {
                &&& (#[trigger] self.idx.recipient@[i]).0@ == self.records@[i].1@.recipient.address
                &&& self.idx.recipient@[i].1 == self.records@[i].0
            }
    }

    /// An empty ledger.
    pub fn new() -> (m: DonationMap)
        ensures
            m@ == Seq::<(u64, DonationView)>::empty(),
    {
        let m = DonationMap {
            records: Vec::new(),
            idx: DonationIndexes { sender: Vec::new(), recipient: Vec::new() },
        };
        assert(m@ =~= Seq::<(u64, DonationView)>::empty());
        m
    }

    /// The number of records. The ids of a ledger always ascend.
    pub fn len(&self) -> (n: usize)
        ensures
            n == self@.len(),
            ids_ascending(self@),
    {
        proof {
            use_type_invariant(self);
        }
        self.records.len()
    }

    /// Finds the place of `id`, and whether a record with that id stands there.
    fn locate(&self, id: u64) -> (r: (usize, bool))
        ensures
            r.0 == id_slot(self@, id),
            r.1 == has_id(self@, id),
            r.0 <= self.records@.len(),
    {
        let n = self.records.len();
        let mut i: usize = 0;
        while i < n
            invariant
                n == self@.len(),
                n == self.records@.len(),
                i <= n,
                forall|j: int| 0 <= j < i ==> (#[trigger] self@[j]).0 < id,
            decreases n - i,
        {
            if self.records[i].0 >= id {
                proof {
                    lemma_id_slot_is(self@, id, i as int);
                }
                return (i, self.records[i].0 == id);
            }
            i = i + 1;
        }
        proof {
            lemma_id_slot_is(self@, id, i as int);
        }
        (i, false)
    }

    /// Whether a record stands under `id`.
    pub fn has(&self, id: u64) -> (found: bool)
        ensures
            found == has_id(self@, id),
    {
        self.locate(id).1
    }

    /// The record stored under `id`, if any.
    pub fn load(&self, id: u64) -> (r: Option<DonationInfo>)
        ensures
            match r {
                Some(d) => record_of(self@, id) == Some(d@),
                None => record_of(self@, id) is None,
            },
    {
        let (i, found) = self.locate(id);
        if found {
            Some(self.records[i].1.clone())
        } else {
            None
        }
    }

    /// Adds `donation` under `id` and files it in both indexes. Where a record
    /// already stands under `id` nothing changes and the error is `Unauthorized`.
    pub fn create(&mut self, id: u64, donation: DonationInfo) -> (r: Result<(), ContractError>)
        ensures
            match r {
                Ok(()) => !has_id(old(self)@, id) && final(self)@ == with_record(
                    old(self)@,
                    id,
                    donation@,
                ),
                Err(e) => has_id(old(self)@, id) && e@ == ErrorView::Unauthorized && final(self)@
                    == old(self)@,
            },
    {
        proof {
            use_type_invariant(&*self);
        }
        let (i, found) = self.locate(id);
        if found {
            return Err(ContractError::Unauthorized {  });
        }
        let ghost before = self@;
        proof {
            lemma_with_record(before, id, donation@);
        }
        let mut taken = DonationMap::new();
        std::mem::swap(self, &mut taken);
        let DonationMap { records, idx } = taken;
        let DonationIndexes { sender, recipient } = idx;
        let mut records = records;
        let mut sender = sender;
        let mut recipient = recipient;
        sender.insert(i, (donation.sender.address.clone(), id));
        recipient.insert(i, (donation.recipient.address.clone(), id));
        records.insert(i, (id, donation));
        assert(records_view(records@) =~= with_record(before, id, donation@));
        *self = DonationMap { records, idx: DonationIndexes { sender, recipient } };
        Ok(())
    }

    /// The records that `address` sent, with their ids, in ascending order of
    /// the ids. They are found through the index of senders.
    pub fn sent_by(&self, address: &String) -> (out: Vec<(u64, DonationInfo)>)
        ensures
            records_view(out@) == sent_by(self@, address@),
    {
        proof {
            use_type_invariant(self);
        }
        let n = self.idx.sender.len();
        let mut out: Vec<(u64, DonationInfo)> = Vec::new();
        let mut i: usize = 0;
        assert(self@.take(0) =~= Seq::<(u64, DonationView)>::empty());
        assert(records_view(out@) =~= sent_by(self@.take(0), address@)) by {
            reveal(Seq::filter);
        }
        while i < n
            invariant
                n == self.records@.len(),
                n == self.idx.sender@.len(),
                n == self@.len(),
                i <= n,
                forall|j: int|
                    0 <= j < n ==> {
                        &&& (#[trigger] self.idx.sender@[j]).0@ == self@[j].1.sender.address
                        &&& self.idx.sender@[j].1 == self@[j].0
                        &&& self.records@[j].1@ == self@[j].1
                    },
                records_view(out@) == sent_by(self@.take(i as int), address@),
            decreases n - i,
        {
            let ghost prev = records_view(out@);
            if self.idx.sender[i].0 == *address {
                out.push((self.idx.sender[i].1, self.records[i].1.clone()));
                assert(records_view(out@) =~= prev.push(self@[i as int]));
            }
            proof {
                reveal(Seq::filter);
                assert(self@.take(i + 1).drop_last() =~= self@.take(i as int));
            }
            i = i + 1;
        }
        assert(self@.take(n as int) =~= self@);
        out
    }

    /// The records that `address` received, with their ids, in ascending order
    /// of the ids. They are found through the index of recipients.
    pub fn received_by(&self, address: &String) -> (out: Vec<(u64, DonationInfo)>)
        ensures
            records_view(out@) == received_by(self@, address@),
    {
        proof {
            use_type_invariant(self);
        }
        let n = self.idx.recipient.len();
        let mut out: Vec<(u64, DonationInfo)> = Vec::new();
        let mut i: usize = 0;
        assert(self@.take(0) =~= Seq::<(u64, DonationView)>::empty());
        assert(records_view(out@) =~= received_by(self@.take(0), address@)) by {
            reveal(Seq::filter);
        }
        while i < n
            invariant
                n == self.records@.len(),
                n == self.idx.recipient@.len(),
                n == self@.len(),
                i <= n,
                forall|j: int|
                    0 <= j < n ==> {
                        &&& (#[trigger] self.idx.recipient@[j]).0@ == self@[j].1.recipient.address
                        &&& self.idx.recipient@[j].1 == self@[j].0
                        &&& self.records@[j].1@ == self@[j].1
                    },
                records_view(out@) == received_by(self@.take(i as int), address@),
            decreases n - i,
        {
            let ghost prev = records_view(out@);
            if self.idx.recipient[i].0 == *address {
                out.push((self.idx.recipient[i].1, self.records[i].1.clone()));
                assert(records_view(out@) =~= prev.push(self@[i as int]));
            }
            proof {
                reveal(Seq::filter);
                assert(self@.take(i + 1).drop_last() =~= self@.take(i as int));
            }
            i = i + 1;
        }
        assert(self@.take(n as int) =~= self@);
        out
    }
}

} // verus!
