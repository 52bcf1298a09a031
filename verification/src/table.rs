//! A table of participants under text keys, kept in the ascending order of the keys.

use crate::state::{AlpineUser, UserView};
use crate::text::{
    lemma_text_lt_strict, lemma_text_lt_total, lemma_text_lt_transitive, place_of, text_lt, Place,
};
use vstd::prelude::*;

verus! {

/// The keys of `s` ascend strictly, so no key stands twice.
pub open spec fn ascending(s: Seq<(Seq<char>, UserView)>) -> bool {
    forall|i: int, j: int| 0 <= i < j < s.len() ==> text_lt(#[trigger] s[i].0, #[trigger] s[j].0)
}

/// `i` is where key `k` belongs in `s`: every entry before `i` has a smaller
/// key, and the entry at `i`, if there is one, has not.
pub open spec fn is_slot(s: Seq<(Seq<char>, UserView)>, k: Seq<char>, i: int) -> bool {
    &&& 0 <= i <= s.len()
    &&& forall|j: int| 0 <= j < i ==> text_lt(#[trigger] s[j].0, k)
    &&& i < s.len() ==> !text_lt(s[i].0, k)
}

/// The place of key `k` in `s`.
pub open spec fn slot(s: Seq<(Seq<char>, UserView)>, k: Seq<char>) -> int {
    choose|i: int| is_slot(s, k, i)
}

/// The key `k` stands in `s`.
pub open spec fn has_key(s: Seq<(Seq<char>, UserView)>, k: Seq<char>) -> bool {
    slot(s, k) < s.len() && s[slot(s, k)].0 == k
}

/// The participant stored under `k`, if any.
pub open spec fn lookup(s: Seq<(Seq<char>, UserView)>, k: Seq<char>) -> Option<UserView> {
    if has_key(s, k) {
        Some(s[slot(s, k)].1)
    } else {
        None
    }
}

/// `s` with `v` stored under `k`: in place of the entry with that key where
/// there is one, else as a new entry where the order asks for it.
pub open spec fn put(s: Seq<(Seq<char>, UserView)>, k: Seq<char>, v: UserView) -> Seq<
    (Seq<char>, UserView),
> {
    if has_key(s, k) {
        s.update(slot(s, k), (k, v))
    } else {
        s.insert(slot(s, k), (k, v))
    }
}

/// A key has a place at `n` or behind it, where every entry before `n` has a smaller key.
proof fn lemma_slot_from(s: Seq<(Seq<char>, UserView)>, k: Seq<char>, n: int)
    requires
        0 <= n <= s.len(),
        forall|j: int| 0 <= j < n ==> text_lt(#[trigger] s[j].0, k),
    ensures
        exists|i: int| is_slot(s, k, i),
    decreases s.len() - n,
{
    if n == s.len() || !text_lt(s[n].0, k) {
        assert(is_slot(s, k, n));
    } else {
        lemma_slot_from(s, k, n + 1);
    }
}

/// Every key has a place in every table.
pub proof fn lemma_slot_exists(s: Seq<(Seq<char>, UserView)>, k: Seq<char>)
    ensures
        is_slot(s, k, slot(s, k)),
{
    lemma_slot_from(s, k, 0);
}

/// In a table whose keys ascend, a key stands exactly where an entry has it,
/// and a lookup gives the participant of that entry.
pub proof fn lemma_lookup(s: Seq<(Seq<char>, UserView)>, k: Seq<char>)
    requires
        ascending(s),
    ensures
        has_key(s, k) <==> exists|i: int| 0 <= i < s.len() && (#[trigger] s[i]).0 == k,
        forall|i: int| 0 <= i < s.len() && (#[trigger] s[i]).0 == k ==> lookup(s, k) == Some(s[i].1),
{
    lemma_slot_exists(s, k);
    assert forall|i: int| 0 <= i < s.len() && (#[trigger] s[i]).0 == k implies slot(s, k) == i by {
        lemma_text_lt_strict(k, k);
        assert forall|j: int| 0 <= j < i implies text_lt(#[trigger] s[j].0, k) by {
            assert(text_lt(s[j].0, s[i].0));
        }
        lemma_slot_is(s, k, i);
    }
    if has_key(s, k) {
        assert(s[slot(s, k)].0 == k);
    }
}

/// Only one index is the place of a key.
pub proof fn lemma_slot_is(s: Seq<(Seq<char>, UserView)>, k: Seq<char>, i: int)
    requires
        is_slot(s, k, i),
    ensures
        slot(s, k) == i,
{
    let c = slot(s, k);
    assert(is_slot(s, k, c));
    if c < i {
        assert(text_lt(s[c].0, k));
    } else if i < c {
        assert(text_lt(s[i].0, k));
    }
}

/// Storing under a key keeps the order of the table, and the stored entry is found again.
pub proof fn lemma_put_ascending(s: Seq<(Seq<char>, UserView)>, k: Seq<char>, v: UserView)
    requires
        ascending(s),
    ensures
        ascending(put(s, k, v)),
        lookup(put(s, k, v), k) == Some(v),
        put(s, k, v).len() == s.len() + if has_key(s, k) { 0int } else { 1int },
{
    lemma_slot_exists(s, k);
    let i = slot(s, k);
    let t = put(s, k, v);
    assert(is_slot(s, k, i));
    lemma_text_lt_strict(k, k);
    if has_key(s, k) {
        assert forall|a: int, b: int| 0 <= a < b < t.len() implies text_lt(
            #[trigger] t[a].0,
            #[trigger] t[b].0,
        ) by {
            assert(text_lt(s[a].0, s[b].0));
        }
        assert(is_slot(t, k, i)) by {
            assert forall|j: int| 0 <= j < i implies text_lt(#[trigger] t[j].0, k) by {
                assert(text_lt(s[j].0, k));
            }
        }
        lemma_slot_is(t, k, i);
    } else {
        assert forall|b: int| i <= b < s.len() implies text_lt(k, #[trigger] s[b].0) by {
            lemma_text_lt_total(s[i].0, k);
            if b > i {
                assert(text_lt(s[i].0, s[b].0));
                lemma_text_lt_transitive(k, s[i].0, s[b].0);
            }
        }
        assert forall|a: int, b: int| 0 <= a < b < t.len() implies text_lt(
            #[trigger] t[a].0,
            #[trigger] t[b].0,
        ) by {
            if b < i {
                assert(text_lt(s[a].0, s[b].0));
            } else if b == i {
                assert(text_lt(s[a].0, k));
            } else if a == i {
                assert(text_lt(k, s[b - 1].0));
            } else if a < i {
                assert(text_lt(s[a].0, s[b - 1].0));
            } else {
                assert(text_lt(s[a - 1].0, s[b - 1].0));
            }
        }
        assert(is_slot(t, k, i)) by {
            assert forall|j: int| 0 <= j < i implies text_lt(#[trigger] t[j].0, k) by {
                assert(text_lt(s[j].0, k));
            }
        }
        lemma_slot_is(t, k, i);
    }
}

/// A table of participants under text keys. It holds at most one entry for a
/// key and hands its entries out in the ascending order of the keys.
pub struct UserTable {
    entries: Vec<(String, AlpineUser)>,
}

impl View for UserTable {
    type V = Seq<(Seq<char>, UserView)>;

    closed spec fn view(&self) -> Seq<(Seq<char>, UserView)> {
        Seq::new(self.entries@.len(), |i: int| (self.entries@[i].0@, self.entries@[i].1@))
    }
}

impl UserTable {
    #[verifier::type_invariant]
    spec fn ordered(self) -> bool {
        ascending(self@)
    }

    /// An empty table.
    pub fn new() -> (t: UserTable)
        ensures
            t@ == Seq::<(Seq<char>, UserView)>::empty(),
    {
        let t = UserTable { entries: Vec::new() };
        assert(t@ =~= Seq::<(Seq<char>, UserView)>::empty());
        t
    }

    /// The number of entries. The entries of a table always ascend.
    pub fn len(&self) -> (n: usize)
        ensures
            n == self@.len(),
            ascending(self@),
    {
        proof {
            use_type_invariant(self);
        }
        self.entries.len()
    }

    /// The key of the entry at position `i`.
    pub fn key(&self, i: usize) -> (k: &String)
        requires
            i < self@.len(),
        ensures
            k@ == self@[i as int].0,
    {
        &self.entries[i].0
    }

    /// The participant of the entry at position `i`.
    pub fn user(&self, i: usize) -> (u: &AlpineUser)
        requires
            i < self@.len(),
        ensures
            u@ == self@[i as int].1,
    {
        &self.entries[i].1
    }

    /// Finds the place of `key`, and whether an entry with that key stands there.
    fn locate(&self, key: &str) -> (r: (usize, bool))
        ensures
            r.0 == slot(self@, key@),
            r.1 == has_key(self@, key@),
            is_slot(self@, key@, r.0 as int),
    {
        let n = self.entries.len();
        let mut i: usize = 0;
        while i < n
            invariant
                n == self@.len(),
                n == self.entries@.len(),
                i <= n,
                forall|j: int| 0 <= j < i ==> text_lt(#[trigger] self@[j].0, key@),
            decreases n - i,
        {
            let p = place_of(self.entries[i].0.as_str(), key);
            proof {
                lemma_text_lt_strict(self@[i as int].0, key@);
                lemma_text_lt_strict(key@, self@[i as int].0);
            }
            match p {
                Place::Before => {},
                Place::Same => {
                    proof {
                        lemma_slot_is(self@, key@, i as int);
                    }
                    return (i, true);
                },
                Place::After => {
                    proof {
                        lemma_slot_is(self@, key@, i as int);
                    }
                    return (i, false);
                },
            }
            i = i + 1;
        }
        proof {
            lemma_slot_is(self@, key@, i as int);
        }
        (i, false)
    }

    /// The participant stored under `key`, if any.
    pub fn may_load(&self, key: &str) -> (r: Option<AlpineUser>)
        ensures
            match r {
                Some(user) => lookup(self@, key@) == Some(user@),
                None => lookup(self@, key@) is None,
            },
    {
        let (i, found) = self.locate(key);
        if found {
            Some(self.entries[i].1.clone())
        } else {
            None
        }
    }

    /// Stores `user` under `key`, in place of what was stored under that key before.
    pub fn save(&mut self, key: String, user: &AlpineUser)
        ensures
            final(self)@ == put(old(self)@, key@, user@),
    {
        proof {
            use_type_invariant(&*self);
            lemma_put_ascending(self@, key@, user@);
        }
        let (i, found) = self.locate(key.as_str());
        let ghost before = self@;
        let mut entries: Vec<(String, AlpineUser)> = Vec::new();
        std::mem::swap(&mut self.entries, &mut entries);
        if found {
            entries.set(i, (key, user.clone()));
        } else {
            entries.insert(i, (key, user.clone()));
        }
        assert(Seq::new(entries@.len(), |j: int| (entries@[j].0@, entries@[j].1@)) =~= put(
            before,
            key@,
            user@,
        ));
        self.entries = entries;
    }
}

} // verus!
