//! Credentials: one secret per account, stored hashed, compared in constant
//! time, gating item removal and authenticated reads.

use vstd::prelude::*;
use crate::utils::{create_hashed_password, ct_slice_compare, sha256_of, str_eq};

verus! {

pub const VIEWING_KEY_SIZE: usize = 32;

/// A credential as presented by a caller.
#[derive(Clone, Debug)]
pub struct ViewingKey(pub String);

/// The mathematical image of one stored credential record.
pub ghost struct CredModel {
    pub account: Seq<char>,
    pub hash: Seq<u8>,
}

struct CredEntry {
    account: String,
    hash: [u8; 32],
}

/// The credential records, one per account: set by an explicit request,
/// overwritten on repetition, never created implicitly.
pub struct CredStore {
    entries: Vec<CredEntry>,
}

impl View for CredStore {
    type V = Seq<CredModel>;

    closed spec fn view(&self) -> Seq<CredModel> {
        self.entries@.map(|i: int, e: CredEntry| CredModel { account: e.account@, hash: e.hash@ })
    }
}

pub open spec fn has_cred(v: Seq<CredModel>, a: Seq<char>) -> bool {
    exists|i: int| 0 <= i < v.len() && #[trigger] v[i].account == a
}

pub open spec fn cred_index(v: Seq<CredModel>, a: Seq<char>) -> int {
    choose|i: int| 0 <= i < v.len() && #[trigger] v[i].account == a
}

/// The stored hash for an account; meaningful only when `has_cred` holds.
pub open spec fn cred_of(v: Seq<CredModel>, a: Seq<char>) -> Seq<u8> {
    v[cred_index(v, a)].hash
}

/// Accounts are pairwise distinct.
pub open spec fn cred_wf(v: Seq<CredModel>) -> bool {
    forall|i: int, j: int|
        #![trigger v[i], v[j]]
        0 <= i < j < v.len() ==> v[i].account != v[j].account
}

proof fn lemma_cred_index_unique(v: Seq<CredModel>, a: Seq<char>, i: int)
    requires
        cred_wf(v),
        0 <= i < v.len(),
        v[i].account == a,
    ensures
        has_cred(v, a),
        cred_index(v, a) == i,
{
    assert(has_cred(v, a));
    let j = cred_index(v, a);
    assert(0 <= j < v.len() && v[j].account == a);
}

impl CredStore {
    pub fn new() -> (r: CredStore)
        ensures
            r@ == Seq::<CredModel>::empty(),
            cred_wf(r@),
    {
        let r = CredStore { entries: Vec::new() };
        proof {
            assert(r@ =~= Seq::<CredModel>::empty());
        }
        r
    }

    fn find(&self, account: &str) -> (r: Option<usize>)
        ensures
            match r {
                Some(i) => 0 <= i < self@.len() && self@[i as int].account == account@
                    && has_cred(self@, account@) && (cred_wf(self@) ==> i as int == cred_index(
                    self@,
                    account@,
                )),
                None => !has_cred(self@, account@),
            },
    {
        let n = self.entries.len();
        let mut i: usize = 0;
        while i < n
            invariant
                0 <= i <= n,
                n == self.entries@.len(),
                self@.len() == n,
                forall|j: int| 0 <= j < i ==> #[trigger] self@[j].account != account@,
            decreases n - i,
        {
            if str_eq(self.entries[i].account.as_str(), account) {
                proof {
                    assert(self@[i as int].account == account@);
                    assert(has_cred(self@, account@));
                    if cred_wf(self@) {
                        lemma_cred_index_unique(self@, account@, i as int);
                    }
                }
                return Some(i);
            }
            i += 1;
        }
        proof {
            if has_cred(self@, account@) {
                let j = cred_index(self@, account@);
                assert(0 <= j < self@.len() && self@[j].account == account@);
            }
        }
        None
    }

    /// Stores or overwrites the account's credential hash.
    pub fn set_cred(&mut self, account: &str, hash: [u8; 32])
        requires
            cred_wf(old(self)@),
        ensures
            cred_wf(final(self)@),
            has_cred(final(self)@, account@),
            cred_of(final(self)@, account@) == hash@,
            forall|a2: Seq<char>|
                a2 != account@ ==> (#[trigger] has_cred(final(self)@, a2) == has_cred(
                    old(self)@,
                    a2,
                ) && (has_cred(old(self)@, a2) ==> cred_of(final(self)@, a2) == cred_of(
                    old(self)@,
                    a2,
                ))),
    {
        let ghost v0 = self@;
        match self.find(account) {
            Some(i) => {
                self.entries[i].hash = hash;
                proof {
                    assert(self@.len() == v0.len());
                    assert(forall|j: int| 0 <= j < v0.len() && j != i ==> self@[j] == v0[j]);
                    assert(self@[i as int].account == account@ && self@[i as int].hash == hash@);
                    assert forall|i2: int, j2: int|
                        #![trigger self@[i2], self@[j2]]
                        0 <= i2 < j2 < self@.len() implies self@[i2].account
                        != self@[j2].account by {
                        assert(v0[i2].account != v0[j2].account);
                        assert(self@[i2].account == v0[i2].account);
                        assert(self@[j2].account == v0[j2].account);
                    }
                    lemma_cred_index_unique(self@, account@, i as int);
                    assert forall|a2: Seq<char>| a2 != account@ implies (#[trigger] has_cred(
                        self@,
                        a2,
                    ) == has_cred(v0, a2) && (has_cred(v0, a2) ==> cred_of(self@, a2) == cred_of(
                        v0,
                        a2,
                    ))) by {
                        if has_cred(v0, a2) {
                            let j = cred_index(v0, a2);
                            assert(0 <= j < v0.len() && v0[j].account == a2);
                            assert(j != i);
                            lemma_cred_index_unique(self@, a2, j);
                        }
                        if has_cred(self@, a2) {
                            let j = cred_index(self@, a2);
                            assert(0 <= j < self@.len() && self@[j].account == a2);
                            assert(j != i);
                            assert(v0[j].account == a2);
                            assert(has_cred(v0, a2));
                        }
                    }
                }
            },
            None => {
                self.entries.push(CredEntry { account: account.to_owned(), hash });
                proof {
                    assert(self@.len() == v0.len() + 1);
                    assert(forall|j: int| 0 <= j < v0.len() ==> self@[j] == v0[j]);
                    assert(self@[v0.len() as int].account == account@);
                    assert(self@[v0.len() as int].hash == hash@);
                    assert forall|i: int, j: int|
                        #![trigger self@[i], self@[j]]
                        0 <= i < j < self@.len() implies self@[i].account != self@[j].account by {
                        if j == v0.len() {
                            if self@[i].account == account@ {
                                assert(v0[i].account == account@);
                                assert(has_cred(v0, account@));
                            }
                        } else {
                            assert(v0[i].account != v0[j].account);
                            assert(self@[i] == v0[i]);
                            assert(self@[j] == v0[j]);
                        }
                    }
                    lemma_cred_index_unique(self@, account@, v0.len() as int);
                    assert forall|a2: Seq<char>| a2 != account@ implies (#[trigger] has_cred(
                        self@,
                        a2,
                    ) == has_cred(v0, a2) && (has_cred(v0, a2) ==> cred_of(self@, a2) == cred_of(
                        v0,
                        a2,
                    ))) by {
                        if has_cred(v0, a2) {
                            let j = cred_index(v0, a2);
                            assert(0 <= j < v0.len() && v0[j].account == a2);
                            lemma_cred_index_unique(self@, a2, j);
                        }
                        if has_cred(self@, a2) {
                            let j = cred_index(self@, a2);
                            assert(0 <= j < self@.len() && self@[j].account == a2);
                            assert(j != v0.len());
                            assert(v0[j].account == a2);
                            assert(has_cred(v0, a2));
                        }
                    }
                }
            },
        }
    }

    /// The account's stored credential hash, if any.
    pub fn get_cred(&self, account: &str) -> (r: Option<Vec<u8>>)
        requires
            cred_wf(self@),
        ensures
            r is Some <==> has_cred(self@, account@),
            r is Some ==> r.unwrap()@ == cred_of(self@, account@),
    {
        match self.find(account) {
            Some(i) => {
                let h = &self.entries[i].hash;
                let mut out: Vec<u8> = Vec::new();
                let mut j: usize = 0;
                while j < 32
                    invariant
                        0 <= j <= 32,
                        h@.len() == 32,
                        out@ =~= h@.subrange(0, j as int),
                    decreases 32 - j,
                {
                    out.push(h[j]);
                    proof {
                        assert(out@ =~= h@.subrange(0, j + 1));
                    }
                    j += 1;
                }
                proof {
                    assert(out@ =~= h@);
                }
                Some(out)
            },
            None => None,
        }
    }
}

impl ViewingKey {
    /// Whether the presented credential hashes to the given stored hash.
    /// The comparison is constant-time-shaped; see `ct_slice_compare`.
    pub fn check_viewing_key(&self, hashed_pw: &[u8]) -> (r: bool)
        ensures
            r == (sha256_of(self.0@) == hashed_pw@),
    {
        let mine_hashed = create_hashed_password(self.0.as_str());

        ct_slice_compare(mine_hashed.as_slice(), hashed_pw)
    }

    /// The stored form of the credential: the SHA-256 digest of the secret.
    pub fn to_hashed(&self) -> (r: [u8; 32])
        ensures
            r@ == sha256_of(self.0@),
    {
        create_hashed_password(self.0.as_str())
    }

    /// Stores (or overwrites) the owner's credential hash.
    pub fn write_viewing_key(store: &mut CredStore, owner: &str, key: &ViewingKey)
        requires
            cred_wf(old(store)@),
        ensures
            cred_wf(final(store)@),
            has_cred(final(store)@, owner@),
            cred_of(final(store)@, owner@) == sha256_of(key.0@),
            forall|a2: Seq<char>|
                a2 != owner@ ==> (#[trigger] has_cred(final(store)@, a2) == has_cred(
                    old(store)@,
                    a2,
                ) && (has_cred(old(store)@, a2) ==> cred_of(final(store)@, a2) == cred_of(
                    old(store)@,
                    a2,
                ))),
    {
        store.set_cred(owner, key.to_hashed());
    }

    /// The owner's stored credential hash, if any.
    pub fn read_viewing_key(store: &CredStore, owner: &str) -> (r: Option<Vec<u8>>)
        requires
            cred_wf(store@),
        ensures
            r is Some <==> has_cred(store@, owner@),
            r is Some ==> r.unwrap()@ == cred_of(store@, owner@),
    {
        store.get_cred(owner)
    }
}

} // verus!
