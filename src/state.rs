use std::collections::HashMap;

use vstd::prelude::*;

use crate::config::Config;
use crate::ledger::{distinct, uuids_of};
use crate::token::{parse_uuid, parsed_uuid};

verus! {

broadcast use vstd::std_specs::hash::group_hash_axioms;

/// `m` maps the token at each position of `u` to the entry at the same
/// position of `e`, and holds no other token.
pub open spec fn tabulates<Q>(m: Map<u128, Q>, u: Seq<u128>, e: Seq<Q>) -> bool {
    &&& forall|k: u128| #[trigger] m.contains_key(k) <==> u.contains(k)
    &&& forall|i: int| 0 <= i < u.len() ==> m[#[trigger] u[i]] == e[i]
}

/// The lookup table served to readers: entries by token, and the token of the
/// first entry. Built once, never changed.
pub struct AppState<Q> {
    first: u128,
    quiz: HashMap<u128, Q>,
    uuids: Ghost<Seq<u128>>,
    entries: Ghost<Seq<Q>>,
}

impl<Q> AppState<Q> {
    #[verifier::type_invariant]
    spec fn inv(self) -> bool {
        &&& self.uuids@.len() == self.entries@.len()
        &&& self.uuids@.len() > 0
        &&& distinct(self.uuids@)
        &&& self.first == self.uuids@[0]
        &&& tabulates(self.quiz@, self.uuids@, self.entries@)
    }

    /// The tokens of the table, in ledger order.
    pub closed spec fn uuids(&self) -> Seq<u128> {
        self.uuids@
    }

    /// The entries of the table, in configuration order.
    pub closed spec fn entries(&self) -> Seq<Q> {
        self.entries@
    }

    /// The entry that `uuid` stands for, if any.
    pub open spec fn resolve(&self, uuid: u128) -> Option<Q> {
        if self.uuids().contains(uuid) {
            let i = choose|i: int| 0 <= i < self.uuids().len() && self.uuids()[i] == uuid;
            Some(self.entries()[i])
        } else {
            None
        }
    }

    /// The table pairs as many tokens as entries, at least one, with no token
    /// twice, and each token resolves to the entry at its position.
    pub open spec fn consistent(&self) -> bool {
        &&& self.uuids().len() == self.entries().len()
        &&& self.uuids().len() > 0
        &&& distinct(self.uuids())
        &&& forall|i: int|
            0 <= i < self.uuids().len() ==> self.resolve(#[trigger] self.uuids()[i]) == Some(
                self.entries()[i],
            )
    }

    /// States for callers that every table is consistent; does no work at run
    /// time.
    pub fn check_consistent(&self)
        ensures
            self.consistent(),
    {
        proof {
            use_type_invariant(self);
            assert forall|i: int| 0 <= i < self.uuids().len() implies self.resolve(
                #[trigger] self.uuids()[i],
            ) == Some(self.entries()[i]) by {
                assert(self.uuids().contains(self.uuids()[i]));
            }
        }
    }

    /// The default token: that of the first entry.
    pub fn first(&self) -> (r: &u128)
        ensures
            *r == self.uuids()[0],
            self.resolve(*r) == Some(self.entries()[0]),
    {
        self.check_consistent();
        proof {
            use_type_invariant(self);
            assert(self.resolve(self.uuids()[0]) == Some(self.entries()[0]));
        }
        &self.first
    }

    /// The entry that `uuid` stands for, if any.
    pub fn get(&self, uuid: &u128) -> (r: Option<&Q>)
        ensures
            match r {
                Some(q) => self.resolve(*uuid) == Some(*q),
                None => self.resolve(*uuid) is None,
            },
    {
        proof {
            use_type_invariant(self);
        }
        let r = self.quiz.get(uuid);
        proof {
            if self.uuids().contains(*uuid) {
                let i = choose|i: int| 0 <= i < self.uuids().len() && self.uuids()[i] == *uuid;
                assert(self.quiz@[self.uuids@[i]] == self.entries@[i]);
            }
        }
        r
    }

    /// The entry whose token is written in `text`, if `text` is a token and
    /// the table holds it.
    pub fn get_str(&self, text: &str) -> (r: Option<&Q>)
        ensures
            match parsed_uuid(text@) {
                Some(u) => match r {
                    Some(q) => self.resolve(u) == Some(*q),
                    None => self.resolve(u) is None,
                },
                None => r is None,
            },
    {
        match parse_uuid(text) {
            Some(u) => self.get(&u),
            None => None,
        }
    }
}

impl<Q> Config<Q> {
    /// Turns a reconciled configuration into its lookup table: the entry at
    /// each position under the token at that position.
    pub fn into_state(self) -> (r: AppState<Q>)
        requires
            self.wf(),
        ensures
            r.uuids() == uuids_of(self.lock@),
            r.entries() == self.quiz@,
            r.consistent(),
    {
        let Config { powered_by: _, quiz, lock } = self;
        let ghost us = uuids_of(lock@);
        let ghost entries = quiz@;
        let n = quiz.len();
        let first = lock[0].uuid;
        let mut rest = quiz;
        let mut map: HashMap<u128, Q> = HashMap::new();
        while rest.len() > 0
            invariant
                n == entries.len() == lock.len() == us.len(),
                us == uuids_of(lock@),
                distinct(us),
                rest.len() <= n,
                rest@ == entries.take(rest.len() as int),
                forall|k: u128| #[trigger]
                    map@.contains_key(k) <==> exists|j: int|
                        rest.len() <= j < n && us[j] == k,
                forall|j: int| rest.len() <= j < n ==> map@[#[trigger] us[j]] == entries[j],
            decreases rest.len(),
        {
            let i = rest.len() - 1;
            let ghost before = map@;
            assert(rest@[i as int] == entries[i as int]);
            match rest.pop() {
                Some(q) => {
                    let u = lock[i].uuid;
                    assert(u == us[i as int]);
                    map.insert(u, q);
                    assert(rest@ =~= entries.take(rest.len() as int));
                    assert forall|j: int| rest.len() <= j < n implies map@[#[trigger] us[j]]
                        == entries[j] by {
                        if j != i {
                            assert(us[j] != us[i as int]);
                        }
                    }
                    assert forall|k: u128|
                        (exists|j: int| rest.len() <= j < n && us[j] == k) implies #[trigger]
                        map@.contains_key(k) by {
                        let j = choose|j: int| rest.len() <= j < n && us[j] == k;
                        if j != i {
                            assert(before.contains_key(us[j]));
                        }
                    }
                    assert forall|k: u128| #[trigger] map@.contains_key(k) implies exists|j: int|
                        rest.len() <= j < n && us[j] == k by {
                        if k != u {
                            assert(before.contains_key(k));
                        } else {
                            assert(us[i as int] == k);
                        }
                    }
                },
                None => {},
            }
        }
        assert(first == us[0]);
        assert forall|k: u128| #[trigger] map@.contains_key(k) <==> us.contains(k) by {
            if us.contains(k) {
                let j = choose|j: int| 0 <= j < us.len() && us[j] == k;
                assert(exists|j: int| 0 <= j < n && us[j] == k);
            }
        }
        let r = AppState { first, quiz: map, uuids: Ghost(us), entries: Ghost(entries) };
        r.check_consistent();
        r
    }
}

} // verus!
