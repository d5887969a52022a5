use vstd::prelude::*;
use crate::codec::{derive_dna, hash_of, kitty_id_of, blake2_128_of, dna_payload};
use crate::genetics::{bit, cross_dna, crossover, gender_from, gender_of, lemma_crossover_inherits};
use crate::ledger::Ledger;
use crate::table::{keys_distinct, has_key, to_map, lemma_to_map_index, lemma_to_map_update, lemma_to_map_push};
use crate::types::{AccountId, Balance, Config, Dna, Entropy, Error, Event, Gender, Kitty, KittyId, KittyView};

verus! {

/// Whether `t` is `s` with the first occurrence of `x` swapped with the last
/// element and the last element dropped.
pub open spec fn swap_removed(s: Seq<Seq<u8>>, x: Seq<u8>, t: Seq<Seq<u8>>) -> bool {
    exists|p: int|
        0 <= p < s.len() && s[p] == x && (forall|q: int| 0 <= q < p ==> s[q] != x) && t == s.update(
            p,
            s.last(),
        ).drop_last()
}

/// The ids of a list, as byte sequences.
pub open spec fn ids_view(s: Seq<KittyId>) -> Seq<Seq<u8>> {
    s.map_values(|id: KittyId| id@)
}

/// The registry: every kitty by id, the ids that each account owns, and the
/// latest kitty minted with each dna.
pub struct Pallet {
    config: Config,
    kitty_cnt: u64,
    kitties: Vec<(KittyId, Kitty)>,
    owned: Vec<(AccountId, Vec<KittyId>)>,
    dna_index: Vec<(Dna, KittyId)>,
}

fn bytes_eq<const N: usize>(a: &[u8; N], b: &[u8; N]) -> (r: bool)
    ensures
        r == (a@ == b@),
{
    let mut i: usize = 0;
    while i < N
        invariant
            i <= N,
            a@.len() == N,
            b@.len() == N,
            forall|k: int| 0 <= k < i ==> a@[k] == b@[k],
        decreases N - i,
    {
        if a[i] != b[i] {
            return false;
        }
        i = i + 1;
    }
    assert(a@ =~= b@);
    true
}

impl Pallet {
    /// The stored kitties as (id, kitty) entries.
    pub closed spec fn kitty_entries(self) -> Seq<(Seq<u8>, KittyView)> {
        self.kitties@.map_values(|e: (KittyId, Kitty)| (e.0@, e.1@))
    }

    /// The owner index as (account, ids) entries.
    pub closed spec fn owned_entries(self) -> Seq<(AccountId, Seq<Seq<u8>>)> {
        self.owned@.map_values(|e: (AccountId, Vec<KittyId>)| (e.0, ids_view(e.1@)))
    }

    /// The dna index as (dna, id) entries.
    pub closed spec fn dna_entries(self) -> Seq<(Seq<u8>, Seq<u8>)> {
        self.dna_index@.map_values(|e: (Dna, KittyId)| (e.0@, e.1@))
    }

    /// Every kitty, by id.
    pub open spec fn kitty_map(self) -> Map<Seq<u8>, KittyView> {
        to_map(self.kitty_entries())
    }

    /// The ids that an account owns.
    pub open spec fn owned_of(self, who: AccountId) -> Seq<Seq<u8>> {
        let m = to_map(self.owned_entries());
        if m.contains_key(who) {
            m[who]
        } else {
            seq![]
        }
    }

    /// The id of the latest kitty minted with each dna.
    pub open spec fn dna_map(self) -> Map<Seq<u8>, Seq<u8>> {
        to_map(self.dna_entries())
    }

    /// How many kitties were ever minted.
    pub closed spec fn count(self) -> nat {
        self.kitty_cnt as nat
    }

    /// The limits the registry was set up with.
    pub closed spec fn limits(self) -> Config {
        self.config
    }

    /// Every kitty is listed under its owner, every listed id is a kitty of that
    /// account, and no list holds an id twice.
    pub closed spec fn owners_consistent(self) -> bool {
        &&& forall|id: Seq<u8>| #[trigger] self.kitty_map().contains_key(id)
            ==> self.owned_of(self.kitty_map()[id].owner).contains(id)
        &&& forall|a: AccountId, q: int| 0 <= q < self.owned_of(a).len()
            ==> self.kitty_map().contains_key(#[trigger] self.owned_of(a)[q])
                && self.kitty_map()[self.owned_of(a)[q]].owner == a
        &&& forall|a: AccountId| #[trigger] self.owned_of(a).no_duplicates()
    }

    /// The registry is well formed.
    pub closed spec fn wf(self) -> bool {
        self.tables_wf() && self.owners_consistent()
    }

    /// Keys are distinct in each table, the counter matches the kitties stored,
    /// and no account holds more kitties than allowed.
    pub closed spec fn tables_wf(self) -> bool {
        &&& keys_distinct(self.kitty_entries())
        &&& keys_distinct(self.owned_entries())
        &&& keys_distinct(self.dna_entries())
        &&& self.kitty_cnt as nat == self.kitties@.len()
        &&& forall|a: AccountId| #[trigger] self.owned_of(a).len() <= self.config.max_kitty_owned
    }

    /// Whether an account has room for one more kitty.
    pub open spec fn has_room(self, who: AccountId) -> bool {
        self.owned_of(who).len() < self.limits().max_kitty_owned
    }

    /// An empty registry with the given limits.
    pub fn new(config: Config) -> (r: Pallet)
        ensures
            r.wf(),
            r.limits() == config,
            r.count() == 0,
            r.kitty_map() == Map::<Seq<u8>, KittyView>::empty(),
            r.dna_map() == Map::<Seq<u8>, Seq<u8>>::empty(),
            forall|a: AccountId| #[trigger] r.owned_of(a) == Seq::<Seq<u8>>::empty(),
    {
        let r = Pallet {
            config,
            kitty_cnt: 0,
            kitties: Vec::new(),
            owned: Vec::new(),
            dna_index: Vec::new(),
        };
        assert(r.kitty_entries() =~= seq![]);
        assert(r.owned_entries() =~= seq![]);
        assert(r.dna_entries() =~= seq![]);
        assert(r.kitty_map() =~= Map::empty());
        assert(r.dna_map() =~= Map::empty());
        r
    }

    /// The limits the registry was set up with.
    pub fn config(&self) -> (r: Config)
        ensures
            r == self.limits(),
    {
        self.config
    }

    /// How many kitties were ever minted.
    pub fn kitty_cnt(&self) -> (r: u64)
        ensures
            r == self.count(),
    {
        self.kitty_cnt
    }

    fn find_kitty(&self, id: &KittyId) -> (r: Option<usize>)
        requires
            self.tables_wf(),
        ensures
            match r {
                Some(i) => i < self.kitties@.len() && self.kitties@[i as int].0@ == id@
                    && self.kitty_map().contains_key(id@)
                    && self.kitty_map()[id@] == self.kitties@[i as int].1@,
                None => !self.kitty_map().contains_key(id@),
            },
    {
        let mut i: usize = 0;
        while i < self.kitties.len()
            invariant
                self.tables_wf(),
                i <= self.kitties@.len(),
                forall|k: int| 0 <= k < i ==> self.kitties@[k].0@ != id@,
            decreases self.kitties@.len() - i,
        {
            if bytes_eq(&self.kitties[i].0, id) {
                proof {
                    assert(self.kitty_entries()[i as int].0 == id@);
                    lemma_to_map_index(self.kitty_entries(), i as int);
                }
                return Some(i);
            }
            i = i + 1;
        }
        proof {
            if has_key(self.kitty_entries(), id@) {
                let j = choose|j: int| 0 <= j < self.kitty_entries().len() && #[trigger] self.kitty_entries()[j].0 == id@;
                assert(self.kitties@[j].0@ == id@);
            }
        }
        None
    }

    fn find_owner(&self, who: AccountId) -> (r: Option<usize>)
        requires
            self.tables_wf(),
        ensures
            match r {
                Some(j) => j < self.owned@.len() && self.owned@[j as int].0 == who
                    && self.owned_of(who) == ids_view(self.owned@[j as int].1@),
                None => self.owned_of(who) == Seq::<Seq<u8>>::empty() && !has_key(self.owned_entries(), who),
            },
    {
        let mut j: usize = 0;
        while j < self.owned.len()
            invariant
                self.tables_wf(),
                j <= self.owned@.len(),
                forall|k: int| 0 <= k < j ==> self.owned@[k].0 != who,
            decreases self.owned@.len() - j,
        {
            if self.owned[j].0 == who {
                proof {
                    assert(self.owned_entries()[j as int].0 == who);
                    lemma_to_map_index(self.owned_entries(), j as int);
                }
                return Some(j);
            }
            j = j + 1;
        }
        proof {
            if has_key(self.owned_entries(), who) {
                let k = choose|k: int| 0 <= k < self.owned_entries().len() && #[trigger] self.owned_entries()[k].0 == who;
                assert(self.owned@[k].0 == who);
            }
        }
        None
    }

    fn find_dna(&self, dna: &Dna) -> (r: Option<usize>)
        requires
            self.tables_wf(),
        ensures
            match r {
                Some(i) => i < self.dna_index@.len() && self.dna_index@[i as int].0@ == dna@
                    && self.dna_map().contains_key(dna@)
                    && self.dna_map()[dna@] == self.dna_index@[i as int].1@,
                None => !self.dna_map().contains_key(dna@),
            },
    {
        let mut i: usize = 0;
        while i < self.dna_index.len()
            invariant
                self.tables_wf(),
                i <= self.dna_index@.len(),
                forall|k: int| 0 <= k < i ==> self.dna_index@[k].0@ != dna@,
            decreases self.dna_index@.len() - i,
        {
            if bytes_eq(&self.dna_index[i].0, dna) {
                proof {
                    assert(self.dna_entries()[i as int].0 == dna@);
                    lemma_to_map_index(self.dna_entries(), i as int);
                }
                return Some(i);
            }
            i = i + 1;
        }
        proof {
            if has_key(self.dna_entries(), dna@) {
                let j = choose|j: int| 0 <= j < self.dna_entries().len() && #[trigger] self.dna_entries()[j].0 == dna@;
                assert(self.dna_index@[j].0@ == dna@);
            }
        }
        None
    }

    /// The kitty with the given id, if any.
    pub fn kitties(&self, id: &KittyId) -> (r: Option<&Kitty>)
        requires
            self.wf(),
        ensures
            match r {
                Some(k) => self.kitty_map().contains_key(id@) && k@ == self.kitty_map()[id@],
                None => !self.kitty_map().contains_key(id@),
            },
    {
        match self.find_kitty(id) {
            Some(i) => Some(&self.kitties[i].1),
            None => None,
        }
    }

    /// The ids that an account owns.
    pub fn kitties_owned(&self, who: AccountId) -> (r: Vec<KittyId>)
        requires
            self.wf(),
        ensures
            ids_view(r@) == self.owned_of(who),
    {
        let mut r: Vec<KittyId> = Vec::new();
        match self.find_owner(who) {
            Some(j) => {
                let ids = &self.owned[j].1;
                let mut k: usize = 0;
                while k < ids.len()
                    invariant
                        k <= ids@.len(),
                        r@ == ids@.subrange(0, k as int),
                    decreases ids@.len() - k,
                {
                    r.push(ids[k]);
                    k = k + 1;
                    assert(r@ =~= ids@.subrange(0, k as int));
                }
                assert(r@ =~= ids@);
            },
            None => {
                assert(ids_view(r@) =~= Seq::<Seq<u8>>::empty());
            },
        }
        r
    }

    /// The id of the latest kitty minted with the given dna.
    pub fn dna_to_kitty(&self, dna: &Dna) -> (r: Option<KittyId>)
        requires
            self.wf(),
        ensures
            match r {
                Some(id) => self.dna_map().contains_key(dna@) && id@ == self.dna_map()[dna@],
                None => !self.dna_map().contains_key(dna@),
            },
    {
        match self.find_dna(dna) {
            Some(i) => Some(self.dna_index[i].1),
            None => None,
        }
    }
    proof fn lemma_owned_frame(self, other: Pallet)
        requires
            self.owned == other.owned,
        ensures
            forall|a: AccountId| #[trigger] self.owned_of(a) == other.owned_of(a),
    {
        assert(self.owned_entries() == other.owned_entries());
    }

    fn push_owned(&mut self, who: AccountId, id: KittyId)
        requires
            old(self).tables_wf(),
            old(self).has_room(who),
        ensures
            final(self).tables_wf(),
            final(self).owned_of(who) == old(self).owned_of(who).push(id@),
            forall|a: AccountId| a != who ==> #[trigger] final(self).owned_of(a) == old(self).owned_of(a),
            final(self).config == old(self).config,
            final(self).kitty_cnt == old(self).kitty_cnt,
            final(self).kitties == old(self).kitties,
            final(self).dna_index == old(self).dna_index,
    {
        let ghost old_entries = self.owned_entries();
        match self.find_owner(who) {
            Some(j) => {
                let ghost old_ids = self.owned@[j as int].1@;
                let (a, mut ids) = self.owned.remove(j);
                ids.push(id);
                self.owned.insert(j, (a, ids));
                proof {
                    assert(self.owned_entries() =~= old_entries.update(j as int, (who, ids_view(ids@))));
                    assert(old_entries[j as int].0 == who);
                    lemma_to_map_update(old_entries, j as int, ids_view(ids@));
                    assert(ids_view(ids@) =~= ids_view(old_ids).push(id@));
                }
            },
            None => {
                let mut ids: Vec<KittyId> = Vec::new();
                ids.push(id);
                self.owned.push((who, ids));
                proof {
                    assert(self.owned_entries() =~= old_entries.push((who, ids_view(ids@))));
                    lemma_to_map_push(old_entries, who, ids_view(ids@));
                    assert(ids_view(ids@) =~= seq![].push(id@));
                }
            },
        }
        proof {
            assert forall|a: AccountId| #[trigger] self.owned_of(a).len() <= self.config.max_kitty_owned by {
                if a != who {
                    assert(self.owned_of(a) == old(self).owned_of(a));
                }
            }
        }
    }

    /// Finds where `id` stands in the list of ids of `who`: the entry and the position in it.
    fn find_owned(&self, who: AccountId, id: &KittyId) -> (r: Option<(usize, usize)>)
        requires
            self.tables_wf(),
        ensures
            match r {
                Some((j, p)) => j < self.owned@.len() && self.owned@[j as int].0 == who
                    && self.owned_of(who) == ids_view(self.owned@[j as int].1@)
                    && p < self.owned_of(who).len() && self.owned_of(who)[p as int] == id@
                    && forall|q: int| 0 <= q < p ==> self.owned_of(who)[q] != id@,
                None => !self.owned_of(who).contains(id@),
            },
    {
        match self.find_owner(who) {
            Some(j) => {
                let ids = &self.owned[j].1;
                let mut p: usize = 0;
                while p < ids.len()
                    invariant
                        j < self.owned@.len(),
                        ids@ == self.owned@[j as int].1@,
                        self.owned@[j as int].0 == who,
                        self.owned_of(who) == ids_view(ids@),
                        p <= ids@.len(),
                        forall|q: int| 0 <= q < p ==> ids@[q]@ != id@,
                    decreases ids@.len() - p,
                {
                    if bytes_eq(&ids[p], id) {
                        assert(ids_view(ids@)[p as int] == id@);
                        assert forall|q: int| 0 <= q < p implies self.owned_of(who)[q] != id@ by {
                            assert(ids_view(ids@)[q] == ids@[q]@);
                        }
                        return Some((j, p));
                    }
                    p = p + 1;
                }
                proof {
                    if self.owned_of(who).contains(id@) {
                        let q = choose|q: int| 0 <= q < self.owned_of(who).len() && self.owned_of(who)[q] == id@;
                        assert(ids@[q]@ == id@);
                    }
                }
                None
            },
            None => None,
        }
    }

    fn swap_remove_owned(&mut self, j: usize, p: usize)
        requires
            old(self).tables_wf(),
            j < old(self).owned@.len(),
            p < old(self).owned@[j as int].1@.len(),
        ensures
            final(self).tables_wf(),
            final(self).owned_of(old(self).owned@[j as int].0) == old(self).owned_of(old(self).owned@[j as int].0).update(
                p as int,
                old(self).owned_of(old(self).owned@[j as int].0).last(),
            ).drop_last(),
            forall|a: AccountId| a != old(self).owned@[j as int].0 ==> #[trigger] final(self).owned_of(a) == old(self).owned_of(a),
            final(self).config == old(self).config,
            final(self).kitty_cnt == old(self).kitty_cnt,
            final(self).kitties == old(self).kitties,
            final(self).dna_index == old(self).dna_index,
    {
        let ghost old_entries = self.owned_entries();
        let ghost old_ids = self.owned@[j as int].1@;
        let (a, mut ids) = self.owned.remove(j);
        ids.swap_remove(p);
        self.owned.insert(j, (a, ids));
        proof {
            assert(self.owned_entries() =~= old_entries.update(j as int, (a, ids_view(ids@))));
            lemma_to_map_update(old_entries, j as int, ids_view(ids@));
            lemma_to_map_index(old_entries, j as int);
            assert(ids_view(ids@) =~= ids_view(old_ids).update(p as int, ids_view(old_ids).last()).drop_last());
            assert forall|b: AccountId| #[trigger] self.owned_of(b).len() <= self.config.max_kitty_owned by {
                if b != a {
                    assert(self.owned_of(b) == old(self).owned_of(b));
                } else {
                    assert(old(self).owned_of(b).len() <= self.config.max_kitty_owned);
                }
            }
        }
    }

    /// Replaces the owner, price and (when `name` is given) the name of the kitty at `i`.
    fn modify_kitty(&mut self, i: usize, owner: AccountId, price: Option<Balance>, name: Option<Option<Vec<u8>>>)
        requires
            old(self).tables_wf(),
            i < old(self).kitties@.len(),
        ensures
            final(self).tables_wf(),
            final(self).kitties@.len() == old(self).kitties@.len(),
            final(self).kitties@[i as int].0 == old(self).kitties@[i as int].0,
            final(self).kitty_map() == old(self).kitty_map().insert(
                old(self).kitties@[i as int].0@,
                KittyView {
                    owner,
                    price,
                    name: match name {
                        Some(Some(n)) => Some(n@),
                        Some(None) => None,
                        None => old(self).kitties@[i as int].1@.name,
                    },
                    ..old(self).kitties@[i as int].1@
                },
            ),
            final(self).config == old(self).config,
            final(self).kitty_cnt == old(self).kitty_cnt,
            final(self).owned == old(self).owned,
            final(self).dna_index == old(self).dna_index,
    {
        let ghost old_entries = self.kitty_entries();
        let (id, k) = self.kitties.remove(i);
        let new_name = match name {
            Some(n) => n,
            None => k.name,
        };
        let nk = Kitty { dna: k.dna, price, gender: k.gender, owner, name: new_name };
        self.kitties.insert(i, (id, nk));
        proof {
            assert(self.kitty_entries() =~= old_entries.update(i as int, (id@, nk@)));
            lemma_to_map_update(old_entries, i as int, nk@);
            self.lemma_owned_frame(*old(self));
            assert forall|a: AccountId| #[trigger] self.owned_of(a).len() <= self.config.max_kitty_owned by {
                assert(self.owned_of(a) == old(self).owned_of(a));
            }
        }
    }

    fn put_dna(&mut self, dna: Dna, id: KittyId)
        requires
            old(self).tables_wf(),
        ensures
            final(self).tables_wf(),
            final(self).dna_map() == old(self).dna_map().insert(dna@, id@),
            final(self).config == old(self).config,
            final(self).kitty_cnt == old(self).kitty_cnt,
            final(self).owned == old(self).owned,
            final(self).kitties == old(self).kitties,
    {
        let ghost old_entries = self.dna_entries();
        match self.find_dna(&dna) {
            Some(i) => {
                self.dna_index.set(i, (dna, id));
                proof {
                    assert(self.dna_entries() =~= old_entries.update(i as int, (dna@, id@)));
                    lemma_to_map_update(old_entries, i as int, id@);
                }
            },
            None => {
                self.dna_index.push((dna, id));
                proof {
                    assert(self.dna_entries() =~= old_entries.push((dna@, id@)));
                    lemma_to_map_push(old_entries, dna@, id@);
                }
            },
        }
        proof {
            self.lemma_owned_frame(*old(self));
            assert forall|a: AccountId| #[trigger] self.owned_of(a).len() <= self.config.max_kitty_owned by {
                assert(self.owned_of(a) == old(self).owned_of(a));
            }
        }
    }
}

/// Removing the first occurrence of `x` by swapping keeps every other element
/// and adds no duplicate.
pub proof fn lemma_swap_removed(s: Seq<Seq<u8>>, x: Seq<u8>, t: Seq<Seq<u8>>)
    requires
        swap_removed(s, x, t),
        s.no_duplicates(),
    ensures
        t.no_duplicates(),
        forall|y: Seq<u8>| t.contains(y) <==> (s.contains(y) && y != x),
        t.len() == s.len() - 1,
{
    let p = choose|p: int|
        0 <= p < s.len() && s[p] == x && (forall|q: int| 0 <= q < p ==> s[q] != x) && t == s.update(
            p,
            s.last(),
        ).drop_last();
    let n = s.len();
    assert forall|i: int| 0 <= i < t.len() implies #[trigger] t[i] == if i == p { s[n - 1] } else { s[i] } by {}
    assert forall|y: Seq<u8>| t.contains(y) <==> (s.contains(y) && y != x) by {
        if t.contains(y) {
            let i = choose|i: int| 0 <= i < t.len() && t[i] == y;
            if i == p {
                assert(s[n - 1] == y);
                assert(n - 1 != p);
            } else {
                assert(s[i] == y);
            }
        }
        if s.contains(y) && y != x {
            let i = choose|i: int| 0 <= i < s.len() && s[i] == y;
            assert(i != p);
            if i < n - 1 {
                assert(t[i] == y);
            } else {
                assert(t[p] == y);
            }
        }
    }
    assert forall|i: int, j: int| 0 <= i < t.len() && 0 <= j < t.len() && i != j implies t[i] != t[j] by {
        let fi = if i == p { n - 1 } else { i };
        let fj = if j == p { n - 1 } else { j };
        assert(t[i] == s[fi] && t[j] == s[fj]);
    }
}

impl Pallet {
    proof fn lemma_consistent_after_relabel(pre: Pallet, post: Pallet, id: Seq<u8>, v: KittyView)
        requires
            pre.wf(),
            pre.kitty_map().contains_key(id),
            v.owner == pre.kitty_map()[id].owner,
            post.kitty_map() == pre.kitty_map().insert(id, v),
            forall|a: AccountId| #[trigger] post.owned_of(a) == pre.owned_of(a),
        ensures
            post.owners_consistent(),
    {
        assert forall|x: Seq<u8>| #[trigger] post.kitty_map().contains_key(x) implies post.owned_of(
            post.kitty_map()[x].owner,
        ).contains(x) by {
            assert(pre.kitty_map().contains_key(x));
            assert(post.kitty_map()[x].owner == pre.kitty_map()[x].owner);
        }
        assert forall|a: AccountId, q: int| 0 <= q < post.owned_of(a).len() implies post.kitty_map().contains_key(
            #[trigger] post.owned_of(a)[q],
        ) && post.kitty_map()[post.owned_of(a)[q]].owner == a by {
            assert(post.owned_of(a)[q] == pre.owned_of(a)[q]);
        }
        assert forall|a: AccountId| #[trigger] post.owned_of(a).no_duplicates() by {
            assert(post.owned_of(a) == pre.owned_of(a));
        }
    }

    proof fn lemma_consistent_after_mint(pre: Pallet, post: Pallet, id: Seq<u8>, k: KittyView)
        requires
            pre.wf(),
            !pre.kitty_map().contains_key(id),
            post.kitty_map() == pre.kitty_map().insert(id, k),
            post.owned_of(k.owner) == pre.owned_of(k.owner).push(id),
            forall|a: AccountId| a != k.owner ==> #[trigger] post.owned_of(a) == pre.owned_of(a),
        ensures
            post.owners_consistent(),
    {
        assert forall|x: Seq<u8>| #[trigger] post.kitty_map().contains_key(x) implies post.owned_of(
            post.kitty_map()[x].owner,
        ).contains(x) by {
            if x == id {
                assert(post.owned_of(k.owner)[pre.owned_of(k.owner).len() as int] == id);
            } else {
                assert(pre.kitty_map().contains_key(x));
                let o = pre.kitty_map()[x].owner;
                let i = choose|i: int| 0 <= i < pre.owned_of(o).len() && pre.owned_of(o)[i] == x;
                assert(post.owned_of(o)[i] == x);
            }
        }
        assert forall|a: AccountId, q: int| 0 <= q < post.owned_of(a).len() implies post.kitty_map().contains_key(
            #[trigger] post.owned_of(a)[q],
        ) && post.kitty_map()[post.owned_of(a)[q]].owner == a by {
            if a == k.owner && q == pre.owned_of(a).len() {
                assert(post.owned_of(a)[q] == id);
            } else {
                assert(post.owned_of(a)[q] == pre.owned_of(a)[q]);
                assert(pre.kitty_map().contains_key(pre.owned_of(a)[q]));
            }
        }
        assert forall|a: AccountId| #[trigger] post.owned_of(a).no_duplicates() by {
            if a == k.owner {
                let s = pre.owned_of(a);
                assert(s.no_duplicates());
                assert forall|i: int, j: int| 0 <= i < s.len() + 1 && 0 <= j < s.len() + 1 && i != j implies
                    post.owned_of(a)[i] != post.owned_of(a)[j] by {
                    if i < s.len() {
                        assert(post.owned_of(a)[i] == s[i]);
                        assert(pre.kitty_map().contains_key(s[i]));
                    } else {
                        assert(post.owned_of(a)[i] == id);
                    }
                    if j < s.len() {
                        assert(post.owned_of(a)[j] == s[j]);
                        assert(pre.kitty_map().contains_key(s[j]));
                    } else {
                        assert(post.owned_of(a)[j] == id);
                    }
                }
            }
        }
    }

    proof fn lemma_consistent_after_handover(pre: Pallet, post: Pallet, id: Seq<u8>, to: AccountId)
        requires
            pre.wf(),
            pre.kitty_map().contains_key(id),
            handover_moves(pre, post, id, to),
        ensures
            post.owners_consistent(),
    {
        let prev = pre.kitty_map()[id].owner;
        let t = if prev != to {
            post.owned_of(prev)
        } else {
            choose|t: Seq<Seq<u8>>| swap_removed(pre.owned_of(prev), id, t) && post.owned_of(to) == t.push(id)
        };
        assert(swap_removed(pre.owned_of(prev), id, t));
        lemma_swap_removed(pre.owned_of(prev), id, t);
        // The ids each account holds after the handover, as sets of membership.
        assert forall|a: AccountId, y: Seq<u8>| #[trigger] post.owned_of(a).contains(y) <==> (
            (a == to && y == id) || (pre.owned_of(a).contains(y) && y != id)) by {
            if a == to {
                let base = if prev == to { t } else { pre.owned_of(to) };
                assert(post.owned_of(a) == base.push(id));
                if post.owned_of(a).contains(y) && y != id {
                    let i = choose|i: int| 0 <= i < post.owned_of(a).len() && post.owned_of(a)[i] == y;
                    assert(base[i] == y);
                }
                if pre.owned_of(a).contains(y) && y != id {
                    if prev != to {
                        let i = choose|i: int| 0 <= i < base.len() && base[i] == y;
                        assert(post.owned_of(a)[i] == y);
                    } else {
                        assert(t.contains(y));
                        let i = choose|i: int| 0 <= i < t.len() && t[i] == y;
                        assert(post.owned_of(a)[i] == y);
                    }
                }
                if y == id {
                    assert(post.owned_of(a)[base.len() as int] == id);
                }
            } else if a == prev {
            } else {
                if pre.owned_of(a).contains(y) {
                    let i = choose|i: int| 0 <= i < pre.owned_of(a).len() && pre.owned_of(a)[i] == y;
                    assert(pre.kitty_map()[y].owner == a);
                }
            }
        }
        assert forall|x: Seq<u8>| #[trigger] post.kitty_map().contains_key(x) implies post.owned_of(
            post.kitty_map()[x].owner,
        ).contains(x) by {
            if x == id {
                assert(post.owned_of(to).contains(id));
            } else {
                assert(pre.owned_of(pre.kitty_map()[x].owner).contains(x));
                assert(post.owned_of(post.kitty_map()[x].owner).contains(x));
            }
        }
        assert forall|a: AccountId, q: int| 0 <= q < post.owned_of(a).len() implies post.kitty_map().contains_key(
            #[trigger] post.owned_of(a)[q],
        ) && post.kitty_map()[post.owned_of(a)[q]].owner == a by {
            let y = post.owned_of(a)[q];
            assert(post.owned_of(a).contains(y));
            if !(a == to && y == id) {
                let i = choose|i: int| 0 <= i < pre.owned_of(a).len() && pre.owned_of(a)[i] == y;
                assert(pre.kitty_map().contains_key(pre.owned_of(a)[i]));
            }
        }
        assert forall|a: AccountId| #[trigger] post.owned_of(a).no_duplicates() by {
            if a == to {
                let base = if prev == to { t } else { pre.owned_of(to) };
                assert(post.owned_of(a) == base.push(id));
                assert(!base.contains(id)) by {
                    if prev != to && base.contains(id) {
                        let i = choose|i: int| 0 <= i < base.len() && base[i] == id;
                        assert(pre.kitty_map()[pre.owned_of(to)[i]].owner == to);
                    }
                }
                assert(base.no_duplicates()) by {
                    if prev != to {
                        assert(pre.owned_of(to).no_duplicates());
                    }
                }
                assert forall|i: int, j: int| 0 <= i < base.len() + 1 && 0 <= j < base.len() + 1 && i != j implies
                    post.owned_of(a)[i] != post.owned_of(a)[j] by {
                    if i < base.len() {
                        assert(post.owned_of(a)[i] == base[i]);
                        assert(base.contains(base[i]));
                    } else {
                        assert(post.owned_of(a)[i] == id);
                    }
                    if j < base.len() {
                        assert(post.owned_of(a)[j] == base[j]);
                        assert(base.contains(base[j]));
                    } else {
                        assert(post.owned_of(a)[j] == id);
                    }
                }
            } else if a == prev {
                assert(post.owned_of(a) == t);
            } else {
                assert(post.owned_of(a) == pre.owned_of(a));
            }
        }
    }
}

/// The dna a new kitty gets: the one given, else fresh dna from the draw.
pub open spec fn fresh_dna(dna: Option<Dna>, e: Entropy) -> Seq<u8> {
    match dna {
        Some(d) => d@,
        None => blake2_128_of(dna_payload(e.dna_random@, e.extrinsic_index, e.block_number)),
    }
}

/// The gender a new kitty gets: the one given, else the one the draw gives.
pub open spec fn fresh_gender(gender: Option<Gender>, e: Entropy) -> Gender {
    match gender {
        Some(g) => g,
        None => gender_of(e.gender_random@[0]),
    }
}

/// A newly minted kitty: not for sale and without a name.
pub open spec fn new_kitty(owner: AccountId, dna: Seq<u8>, gender: Gender) -> KittyView {
    KittyView { dna, price: None, gender, owner, name: None }
}

/// The kitty that `mint` builds from its arguments.
pub open spec fn fresh_kitty(owner: AccountId, dna: Option<Dna>, gender: Option<Gender>, e: Entropy) -> KittyView {
    new_kitty(owner, fresh_dna(dna, e), fresh_gender(gender, e))
}

/// What minting kitty `k` does: the checks in order (counter, identity, room),
/// and on success the kitty stored under the digest of its encoding.
pub open spec fn mint_outcome(pre: Pallet, post: Pallet, k: KittyView, r: Result<KittyId, Error>) -> bool {
    let id = kitty_id_of(k);
    let owner = k.owner;
    &&& post.wf()
    &&& post.limits() == pre.limits()
    &&& (r == Err::<KittyId, Error>(Error::KittyCntOverflow) <==> pre.count() == u64::MAX)
    &&& (r == Err::<KittyId, Error>(Error::KittyExists) <==> pre.count() < u64::MAX
        && pre.kitty_map().contains_key(id))
    &&& (r == Err::<KittyId, Error>(Error::ExceedMaxKittyOwned) <==> pre.count() < u64::MAX
        && !pre.kitty_map().contains_key(id) && !pre.has_room(owner))
    &&& (r is Ok <==> pre.count() < u64::MAX && !pre.kitty_map().contains_key(id) && pre.has_room(owner))
    &&& (r is Err ==> post == pre)
    &&& (r is Ok ==> {
        &&& r->Ok_0@ == id
        &&& !pre.kitty_map().contains_key(id)
        &&& post.kitty_map().contains_key(id)
        &&& post.kitty_map() == pre.kitty_map().insert(id, k)
        &&& post.count() == pre.count() + 1
        &&& post.owned_of(owner) == pre.owned_of(owner).push(id)
        &&& forall|a: AccountId| a != owner ==> #[trigger] post.owned_of(a) == pre.owned_of(a)
        &&& post.dna_map() == pre.dna_map().insert(k.dna, id)
    })
}

impl Pallet {
    /// Fresh dna from the call's "dna" draw and position.
    pub fn gen_dna(entropy: &Entropy) -> (r: Dna)
        ensures
            r@ == fresh_dna(None, *entropy),
    {
        derive_dna(&entropy.dna_random, entropy.extrinsic_index, entropy.block_number)
    }

    /// A gender from the call's "gender" draw.
    pub fn gen_gender(entropy: &Entropy) -> (r: Gender)
        ensures
            r == fresh_gender(None, *entropy),
    {
        gender_from(&entropy.gender_random)
    }

    /// Mints a kitty for `owner`, with the given dna and gender or fresh ones, and
    /// returns its id: the digest of its encoding.
    pub fn mint(&mut self, owner: AccountId, dna: Option<Dna>, gender: Option<Gender>, entropy: &Entropy) -> (r: Result<KittyId, Error>)
        requires
            old(self).wf(),
        ensures
            mint_outcome(*old(self), *final(self), fresh_kitty(owner, dna, gender, *entropy), r),
    {
        let d = match dna {
            Some(d) => d,
            None => Self::gen_dna(entropy),
        };
        let g = match gender {
            Some(g) => g,
            None => Self::gen_gender(entropy),
        };
        let kitty = Kitty { dna: d, price: None, gender: g, owner, name: None };
        assert(kitty@ == fresh_kitty(owner, dna, gender, *entropy));
        let kitty_id = hash_of(&kitty);
        if self.kitty_cnt == u64::MAX {
            return Err(Error::KittyCntOverflow);
        }
        let new_cnt = self.kitty_cnt + 1;
        if self.find_kitty(&kitty_id).is_some() {
            return Err(Error::KittyExists);
        }
        match self.find_owner(owner) {
            Some(j) => {
                if self.owned[j].1.len() as u64 >= self.config.max_kitty_owned as u64 {
                    return Err(Error::ExceedMaxKittyOwned);
                }
            },
            None => {
                if self.config.max_kitty_owned == 0 {
                    return Err(Error::ExceedMaxKittyOwned);
                }
            },
        }
        let ghost start = *self;
        self.push_owned(owner, kitty_id);
        let ghost pushed = *self;
        self.put_dna(d, kitty_id);
        let ghost mid = *self;
        let ghost before = self.kitty_entries();
        self.kitties.push((kitty_id, kitty));
        self.kitty_cnt = new_cnt;
        proof {
            assert(self.kitty_entries() =~= before.push((kitty_id@, kitty@)));
            lemma_to_map_push(before, kitty_id@, kitty@);
            self.lemma_owned_frame(mid);
            mid.lemma_owned_frame(pushed);
            assert forall|a: AccountId| #[trigger] self.owned_of(a).len() <= self.config.max_kitty_owned by {
                assert(self.owned_of(a) == pushed.owned_of(a));
            }
            assert forall|a: AccountId| a != owner implies #[trigger] self.owned_of(a) == start.owned_of(a) by {
                assert(self.owned_of(a) == pushed.owned_of(a));
            }
            assert(self.owned_of(owner) == pushed.owned_of(owner));
            Self::lemma_consistent_after_mint(start, *self, kitty_id@, kitty@);
        }
        Ok(kitty_id)
    }
}

/// The kitty `k` after a change of hands: new owner, no asking price.
pub open spec fn handed_over(k: KittyView, to: AccountId) -> KittyView {
    KittyView { owner: to, price: None, ..k }
}

/// What handing kitty `id` over to `to` does: the kitty gets its new owner and
/// loses its price; its id moves from the old owner's list to the end of the new one's. The
/// registry stays well formed.
pub open spec fn handover_effect(pre: Pallet, post: Pallet, id: Seq<u8>, to: AccountId) -> bool {
    post.wf() && handover_moves(pre, post, id, to)
}

/// The changes of a handover, apart from well-formedness.
pub open spec fn handover_moves(pre: Pallet, post: Pallet, id: Seq<u8>, to: AccountId) -> bool {
    let k = pre.kitty_map()[id];
    let prev = k.owner;
    &&& post.kitty_map() == pre.kitty_map().insert(id, handed_over(k, to))
    &&& post.kitty_map()[id].price == None::<Balance>
    &&& post.kitty_map()[id].owner == to
    &&& post.count() == pre.count()
    &&& post.dna_map() == pre.dna_map()
    &&& post.limits() == pre.limits()
    &&& prev != to ==> swap_removed(pre.owned_of(prev), id, post.owned_of(prev))
        && post.owned_of(to) == pre.owned_of(to).push(id)
    &&& prev == to ==> exists|t: Seq<Seq<u8>>| swap_removed(pre.owned_of(prev), id, t)
        && post.owned_of(to) == t.push(id)
    &&& forall|a: AccountId| a != prev && a != to ==> #[trigger] post.owned_of(a) == pre.owned_of(a)
}

impl Pallet {
    /// Whether an account has room for one more kitty.
    pub fn has_room_for(&self, who: AccountId) -> (r: bool)
        requires
            self.wf(),
        ensures
            r == self.has_room(who),
    {
        match self.find_owner(who) {
            Some(j) => (self.owned[j].1.len() as u64) < self.config.max_kitty_owned as u64,
            None => self.config.max_kitty_owned > 0,
        }
    }

    /// Whether `acct` owns the kitty `id`; an error if there is no such kitty.
    pub fn is_kitty_owner(&self, id: &KittyId, acct: AccountId) -> (r: Result<bool, Error>)
        requires
            self.wf(),
        ensures
            !self.kitty_map().contains_key(id@) ==> r == Err::<bool, Error>(Error::KittyNotExist),
            self.kitty_map().contains_key(id@) ==> r == Ok::<bool, Error>(self.kitty_map()[id@].owner == acct),
    {
        match self.kitties(id) {
            Some(k) => Ok(k.owner == acct),
            None => Err(Error::KittyNotExist),
        }
    }

    /// Hands kitty `id` over to `to` and takes it off the market. Fails, with
    /// nothing changed, if the kitty is missing or not listed under its owner, or
    /// if `to` has no room.
    pub fn transfer_kitty_to(&mut self, id: &KittyId, to: AccountId) -> (r: Result<(), Error>)
        requires
            old(self).wf(),
        ensures
            final(self).wf(),
            final(self).limits() == old(self).limits(),
            (r == Err::<(), Error>(Error::KittyNotExist)) <==> !old(self).kitty_map().contains_key(id@),
            (r == Err::<(), Error>(Error::ExceedMaxKittyOwned)) <==> (old(self).kitty_map().contains_key(id@)
                && old(self).kitty_map()[id@].owner != to && !old(self).has_room(to)),
            r is Err ==> r == Err::<(), Error>(Error::KittyNotExist) || r == Err::<(), Error>(Error::ExceedMaxKittyOwned),
            r is Err ==> *final(self) == *old(self),
            r is Ok ==> handover_effect(*old(self), *final(self), id@, to),
    {
        let i = match self.find_kitty(id) {
            Some(i) => i,
            None => return Err(Error::KittyNotExist),
        };
        let prev = self.kitties[i].1.owner;
        let (j, p) = match self.find_owned(prev, id) {
            Some(x) => x,
            None => return Err(Error::KittyNotExist),
        };
        if to != prev && !self.has_room_for(to) {
            return Err(Error::ExceedMaxKittyOwned);
        }
        let ghost pre = *self;
        self.swap_remove_owned(j, p);
        let ghost removed = *self;
        proof {
            assert(swap_removed(pre.owned_of(prev), id@, removed.owned_of(prev)));
        }
        self.modify_kitty(i, to, None, None);
        let ghost modified = *self;
        proof {
            modified.lemma_owned_frame(removed);
        }
        self.push_owned(to, *id);
        proof {
            assert(self.kitty_map() == modified.kitty_map());
            if prev != to {
                assert(self.owned_of(prev) == removed.owned_of(prev));
            } else {
                assert(swap_removed(pre.owned_of(prev), id@, modified.owned_of(prev)));
            }
            assert forall|a: AccountId| a != prev && a != to implies #[trigger] self.owned_of(a) == pre.owned_of(a) by {
                assert(self.owned_of(a) == modified.owned_of(a));
                assert(removed.owned_of(a) == pre.owned_of(a));
            }
            assert(self.kitty_map()[id@] == handed_over(pre.kitty_map()[id@], to));
            Self::lemma_consistent_after_handover(pre, *self, id@, to);
        }
        Ok(())
    }

    /// Sets or clears the asking price of a kitty that `sender` owns.
    pub fn set_price(&mut self, sender: AccountId, id: &KittyId, new_price: Option<Balance>) -> (r: Result<Event, Error>)
        requires
            old(self).wf(),
        ensures
            final(self).wf(),
            final(self).limits() == old(self).limits(),
            !old(self).kitty_map().contains_key(id@) ==> r == Err::<Event, Error>(Error::KittyNotExist),
            old(self).kitty_map().contains_key(id@) && old(self).kitty_map()[id@].owner != sender
                ==> r == Err::<Event, Error>(Error::NotKittyOwner),
            r is Err ==> *final(self) == *old(self),
            old(self).kitty_map().contains_key(id@) && old(self).kitty_map()[id@].owner == sender ==> {
                &&& r == Ok::<Event, Error>(Event::PriceSet(sender, *id, new_price))
                &&& final(self).kitty_map() == old(self).kitty_map().insert(
                    id@,
                    KittyView { price: new_price, ..old(self).kitty_map()[id@] },
                )
                &&& final(self).count() == old(self).count()
                &&& final(self).dna_map() == old(self).dna_map()
                &&& final(self).limits() == old(self).limits()
                &&& forall|a: AccountId| #[trigger] final(self).owned_of(a) == old(self).owned_of(a)
            },
    {
        let i = match self.find_kitty(id) {
            Some(i) => i,
            None => return Err(Error::KittyNotExist),
        };
        let owner = self.kitties[i].1.owner;
        if owner != sender {
            return Err(Error::NotKittyOwner);
        }
        self.modify_kitty(i, owner, new_price, None);
        proof {
            self.lemma_owned_frame(*old(self));
            Self::lemma_consistent_after_relabel(*old(self), *self, id@, self.kitty_map()[id@]);
        }
        Ok(Event::PriceSet(sender, *id, new_price))
    }

    /// Sends a kitty that `from` owns to `to`, taking it off the market.
    pub fn transfer(&mut self, from: AccountId, to: AccountId, id: &KittyId) -> (r: Result<Event, Error>)
        requires
            old(self).wf(),
        ensures
            final(self).wf(),
            final(self).limits() == old(self).limits(),
            ({
                let m = old(self).kitty_map();
                &&& !m.contains_key(id@) ==> r == Err::<Event, Error>(Error::KittyNotExist)
                &&& m.contains_key(id@) && m[id@].owner != from ==> r == Err::<Event, Error>(Error::NotKittyOwner)
                &&& m.contains_key(id@) && m[id@].owner == from && from == to
                    ==> r == Err::<Event, Error>(Error::TransferToSelf)
                &&& m.contains_key(id@) && m[id@].owner == from && from != to && !old(self).has_room(to)
                    ==> r == Err::<Event, Error>(Error::ExceedMaxKittyOwned)
                &&& m.contains_key(id@) && m[id@].owner == from && from != to && old(self).has_room(to)
                    ==> r == Ok::<Event, Error>(Event::Transferred(from, to, *id))
            }),
            r is Err ==> *final(self) == *old(self),
            r is Ok ==> handover_effect(*old(self), *final(self), id@, to),
    {
        match self.is_kitty_owner(id, from) {
            Err(e) => return Err(e),
            Ok(false) => return Err(Error::NotKittyOwner),
            Ok(true) => {},
        }
        if from == to {
            return Err(Error::TransferToSelf);
        }
        if !self.has_room_for(to) {
            return Err(Error::ExceedMaxKittyOwned);
        }
        match self.transfer_kitty_to(id, to) {
            Err(e) => Err(e),
            Ok(()) => Ok(Event::Transferred(from, to, *id)),
        }
    }
}

/// Why a purchase of kitty `id` by `buyer` at `bid` is refused, checked in order;
/// `None` when it goes through.
pub open spec fn buy_error(pre: Pallet, ledger: Ledger, buyer: AccountId, id: Seq<u8>, bid: Balance) -> Option<Error> {
    let m = pre.kitty_map();
    if !m.contains_key(id) {
        Some(Error::KittyNotExist)
    } else if m[id].owner == buyer {
        Some(Error::BuyerIsKittyOwner)
    } else if m[id].price is None {
        Some(Error::KittyNotForSale)
    } else if bid < m[id].price->0 {
        Some(Error::KittyBidPriceTooLow)
    } else if ledger.balance_of(buyer) < bid {
        Some(Error::NotEnoughBalance)
    } else if !pre.has_room(buyer) {
        Some(Error::ExceedMaxKittyOwned)
    } else if !ledger.can_withdraw(buyer, bid, true) {
        Some(Error::NotEnoughBalance)
    } else if ledger.balance_of(m[id].owner) + bid > u64::MAX {
        Some(Error::BalanceOverflow)
    } else {
        None
    }
}

impl Pallet {
    /// Buys a kitty that is for sale at no more than `bid`: the bid moves from
    /// the buyer to the seller, who keeps the minimum balance, and the kitty moves
    /// to the buyer and off the market. All or nothing.
    pub fn buy_kitty(&mut self, buyer: AccountId, id: &KittyId, bid: Balance, ledger: &mut Ledger) -> (r: Result<Event, Error>)
        requires
            old(self).wf(),
            old(ledger).wf(),
        ensures
            final(self).wf(),
            final(ledger).wf(),
            match buy_error(*old(self), *old(ledger), buyer, id@, bid) {
                Some(e) => r == Err::<Event, Error>(e) && *final(self) == *old(self) && *final(ledger) == *old(ledger),
                None => {
                    let seller = old(self).kitty_map()[id@].owner;
                    &&& r == Ok::<Event, Error>(Event::Bought(buyer, seller, *id, bid))
                    &&& handover_effect(*old(self), *final(self), id@, buyer)
                    &&& final(ledger).spec_min_balance() == old(ledger).spec_min_balance()
                    &&& final(ledger).balance_of(buyer) == old(ledger).balance_of(buyer) - bid
                    &&& final(ledger).balance_of(seller) == old(ledger).balance_of(seller) + bid
                    &&& forall|a: AccountId| a != buyer && a != seller ==> #[trigger] final(ledger).balance_of(a)
                        == old(ledger).balance_of(a)
                },
            },
    {
        let i = match self.find_kitty(id) {
            Some(i) => i,
            None => return Err(Error::KittyNotExist),
        };
        let seller = self.kitties[i].1.owner;
        if seller == buyer {
            return Err(Error::BuyerIsKittyOwner);
        }
        match self.kitties[i].1.price {
            Some(ask) => {
                if bid < ask {
                    return Err(Error::KittyBidPriceTooLow);
                }
            },
            None => return Err(Error::KittyNotForSale),
        }
        if ledger.free_balance(buyer) < bid {
            return Err(Error::NotEnoughBalance);
        }
        if !self.has_room_for(buyer) {
            return Err(Error::ExceedMaxKittyOwned);
        }
        match ledger.transfer(buyer, seller, bid, true) {
            Err(e) => return Err(e),
            Ok(()) => {},
        }
        match self.transfer_kitty_to(id, buyer) {
            Err(e) => Err(e),
            Ok(()) => Ok(Event::Bought(buyer, seller, *id, bid)),
        }
    }
}

/// The random mask that breeding draws: the dna derivation over the "breed" draw.
pub open spec fn breed_mask(e: Entropy) -> Seq<u8> {
    blake2_128_of(dna_payload(e.breed_random@, e.extrinsic_index, e.block_number))
}

/// Why `sender` cannot breed `p1` with `p2`, checked in order; `None` when the
/// parents are fit.
pub open spec fn breed_error(pre: Pallet, sender: AccountId, p1: Seq<u8>, p2: Seq<u8>) -> Option<Error> {
    let m = pre.kitty_map();
    if !m.contains_key(p1) || !m.contains_key(p2) {
        Some(Error::KittyNotExist)
    } else if m[p1].owner != sender || m[p2].owner != sender {
        Some(Error::NotKittyOwner)
    } else if m[p1].gender == m[p2].gender {
        Some(Error::SameSex)
    } else {
        None
    }
}

/// The kitties a registry starts with.
pub struct GenesisConfig {
    /// Kitties to mint at genesis: owner, dna and gender.
    pub kitties: Vec<(AccountId, Dna, Gender)>,
}

impl Default for GenesisConfig {
    fn default() -> (r: GenesisConfig)
        ensures
            r.kitties@.len() == 0,
    {
        GenesisConfig { kitties: Vec::new() }
    }
}

impl GenesisConfig {
    /// A registry with the given limits in which each listed kitty was minted in
    /// turn; a kitty whose mint fails is left out. Each listed kitty is then stored
    /// unless its owner holds as many kitties as allowed.
    pub fn build(&self, config: Config) -> (r: Pallet)
        ensures
            r.wf(),
            r.limits() == config,
            r.count() <= self.kitties@.len(),
            forall|id: Seq<u8>| #[trigger] r.kitty_map().contains_key(id) ==> exists|i: int|
                0 <= i < self.kitties@.len() && r.kitty_map()[id] == new_kitty(
                    self.kitties@[i].0,
                    self.kitties@[i].1@,
                    self.kitties@[i].2,
                ) && id == kitty_id_of(r.kitty_map()[id]),
            forall|i: int| 0 <= i < self.kitties@.len() ==> {
                let k = #[trigger] new_kitty(self.kitties@[i].0, self.kitties@[i].1@, self.kitties@[i].2);
                r.kitty_map().contains_key(kitty_id_of(k)) || r.owned_of(k.owner).len() >= config.max_kitty_owned
            },
    {
        let mut pallet = Pallet::new(config);
        let entropy = Entropy {
            dna_random: [0u8; 32],
            gender_random: [0u8; 32],
            breed_random: [0u8; 32],
            extrinsic_index: None,
            block_number: 0,
        };
        let mut i: usize = 0;
        while i < self.kitties.len()
            invariant
                i <= self.kitties@.len(),
                pallet.wf(),
                pallet.limits() == config,
                pallet.count() <= i,
                forall|id: Seq<u8>| #[trigger] pallet.kitty_map().contains_key(id) ==> exists|k: int|
                    0 <= k < i && pallet.kitty_map()[id] == new_kitty(
                        self.kitties@[k].0,
                        self.kitties@[k].1@,
                        self.kitties@[k].2,
                    ) && id == kitty_id_of(pallet.kitty_map()[id]),
                forall|k: int| 0 <= k < i ==> {
                    let kv = #[trigger] new_kitty(self.kitties@[k].0, self.kitties@[k].1@, self.kitties@[k].2);
                    pallet.kitty_map().contains_key(kitty_id_of(kv)) || pallet.owned_of(kv.owner).len()
                        >= config.max_kitty_owned
                },
            decreases self.kitties@.len() - i,
        {
            let (acct, dna, gender) = self.kitties[i];
            let ghost pre = pallet;
            assert(pre.count() < u64::MAX);
            let minted = pallet.mint(acct, Some(dna), Some(gender), &entropy);
            let ghost cur = new_kitty(acct, dna@, gender);
            assert(fresh_kitty(acct, Some(dna), Some(gender), entropy) == cur);
            proof {
                assert forall|id: Seq<u8>| #[trigger] pallet.kitty_map().contains_key(id) implies exists|k: int|
                    0 <= k < i + 1 && pallet.kitty_map()[id] == new_kitty(
                        self.kitties@[k].0,
                        self.kitties@[k].1@,
                        self.kitties@[k].2,
                    ) && id == kitty_id_of(pallet.kitty_map()[id]) by {
                    if pre.kitty_map().contains_key(id) {
                        let k = choose|k: int| 0 <= k < i && pre.kitty_map()[id] == new_kitty(
                            self.kitties@[k].0,
                            self.kitties@[k].1@,
                            self.kitties@[k].2,
                        ) && id == kitty_id_of(pre.kitty_map()[id]);
                        assert(pallet.kitty_map()[id] == pre.kitty_map()[id]);
                    } else {
                        assert(pallet.kitty_map()[id] == new_kitty(acct, dna@, gender));
                    }
                }
                assert forall|k: int| 0 <= k < i + 1 implies {
                    let kv = #[trigger] new_kitty(self.kitties@[k].0, self.kitties@[k].1@, self.kitties@[k].2);
                    pallet.kitty_map().contains_key(kitty_id_of(kv)) || pallet.owned_of(kv.owner).len()
                        >= config.max_kitty_owned
                } by {
                    let kv = new_kitty(self.kitties@[k].0, self.kitties@[k].1@, self.kitties@[k].2);
                    if k < i {
                        if pre.kitty_map().contains_key(kitty_id_of(kv)) {
                            assert(pallet.kitty_map().contains_key(kitty_id_of(kv)));
                        } else {
                            assert(pre.owned_of(kv.owner).len() >= config.max_kitty_owned);
                            if minted is Ok && kv.owner != acct {
                                assert(pallet.owned_of(kv.owner) == pre.owned_of(kv.owner));
                            }
                            assert(pallet.owned_of(kv.owner).len() >= pre.owned_of(kv.owner).len());
                        }
                    } else {
                        assert(kv == cur);
                        if minted is Ok {
                            assert(pallet.kitty_map().contains_key(kitty_id_of(cur)));
                        }
                    }
                }
            }
            i = i + 1;
        }
        pallet
    }
}

impl Pallet {
    /// Creates a kitty for `sender` with fresh dna and gender.
    pub fn create_kitty(&mut self, sender: AccountId, entropy: &Entropy) -> (r: Result<Event, Error>)
        requires
            old(self).wf(),
        ensures
            match r {
                Ok(ev) => ev matches Event::Created(who, id) && who == sender && mint_outcome(
                    *old(self),
                    *final(self),
                    fresh_kitty(sender, None, None, *entropy),
                    Ok::<KittyId, Error>(id),
                ),
                Err(e) => mint_outcome(
                    *old(self),
                    *final(self),
                    fresh_kitty(sender, None, None, *entropy),
                    Err::<KittyId, Error>(e),
                ),
            },
    {
        match self.mint(sender, None, None, entropy) {
            Ok(id) => Ok(Event::Created(sender, id)),
            Err(e) => Err(e),
        }
    }

    /// A child's dna: each bit from `parent1` where the "breed" mask has a one,
    /// from `parent2` elsewhere.
    pub fn breed_dna(&self, parent1: &KittyId, parent2: &KittyId, entropy: &Entropy) -> (r: Result<Dna, Error>)
        requires
            self.wf(),
        ensures
            !self.kitty_map().contains_key(parent1@) || !self.kitty_map().contains_key(parent2@)
                ==> r == Err::<Dna, Error>(Error::KittyNotExist),
            self.kitty_map().contains_key(parent1@) && self.kitty_map().contains_key(parent2@) ==> {
                let d1 = self.kitty_map()[parent1@].dna;
                let d2 = self.kitty_map()[parent2@].dna;
                &&& r is Ok
                &&& r->Ok_0@ == crossover(breed_mask(*entropy), d1, d2)
                &&& forall|i: int, j: u8| 0 <= i < 16 && j < 8 ==>
                    #[trigger] bit(r->Ok_0@[i], j) == bit(d1[i], j) || bit(r->Ok_0@[i], j) == bit(d2[i], j)
            },
    {
        let dna1 = match self.kitties(parent1) {
            Some(k) => k.dna,
            None => return Err(Error::KittyNotExist),
        };
        let dna2 = match self.kitties(parent2) {
            Some(k) => k.dna,
            None => return Err(Error::KittyNotExist),
        };
        let mask = derive_dna(&entropy.breed_random, entropy.extrinsic_index, entropy.block_number);
        let child = cross_dna(&mask, &dna1, &dna2);
        proof {
            lemma_crossover_inherits(mask@, dna1@, dna2@);
        }
        Ok(child)
    }

    /// Breeds two kitties of different gender that `sender` owns into a new kitty
    /// for `sender`, with crossed-over dna and a fresh gender. The parents are unchanged.
    pub fn breed_kitty(&mut self, sender: AccountId, parent1: &KittyId, parent2: &KittyId, entropy: &Entropy) -> (r: Result<KittyId, Error>)
        requires
            old(self).wf(),
        ensures
            match breed_error(*old(self), sender, parent1@, parent2@) {
                Some(e) => r == Err::<KittyId, Error>(e) && *final(self) == *old(self),
                None => mint_outcome(
                    *old(self),
                    *final(self),
                    new_kitty(
                        sender,
                        crossover(
                            breed_mask(*entropy),
                            old(self).kitty_map()[parent1@].dna,
                            old(self).kitty_map()[parent2@].dna,
                        ),
                        fresh_gender(None, *entropy),
                    ),
                    r,
                ),
            },
    {
        let g1 = match self.kitties(parent1) {
            Some(k) => {
                if k.owner != sender {
                    match self.kitties(parent2) {
                        Some(_) => return Err(Error::NotKittyOwner),
                        None => return Err(Error::KittyNotExist),
                    }
                }
                k.gender
            },
            None => return Err(Error::KittyNotExist),
        };
        let g2 = match self.kitties(parent2) {
            Some(k) => {
                if k.owner != sender {
                    return Err(Error::NotKittyOwner);
                }
                k.gender
            },
            None => return Err(Error::KittyNotExist),
        };
        if g1 == g2 {
            return Err(Error::SameSex);
        }
        let new_dna = match self.breed_dna(parent1, parent2, entropy) {
            Ok(d) => d,
            Err(e) => return Err(e),
        };
        self.mint(sender, Some(new_dna), None, entropy)
    }

    /// Names a kitty. The name must be between the configured lengths, inclusive.
    pub fn add_kitty_name(&mut self, id: &KittyId, name: Vec<u8>) -> (r: Result<(), Error>)
        requires
            old(self).wf(),
        ensures
            final(self).wf(),
            final(self).limits() == old(self).limits(),
            !old(self).kitty_map().contains_key(id@) ==> r == Err::<(), Error>(Error::KittyNotExist),
            old(self).kitty_map().contains_key(id@) && name@.len() > old(self).limits().max_name_length
                ==> r == Err::<(), Error>(Error::NameTooLong),
            old(self).kitty_map().contains_key(id@) && name@.len() <= old(self).limits().max_name_length
                && name@.len() < old(self).limits().min_name_length ==> r == Err::<(), Error>(Error::NameTooShort),
            r is Err ==> *final(self) == *old(self),
            old(self).kitty_map().contains_key(id@) && old(self).limits().min_name_length <= name@.len()
                <= old(self).limits().max_name_length ==> {
                &&& r is Ok
                &&& final(self).kitty_map() == old(self).kitty_map().insert(
                    id@,
                    KittyView { name: Some(name@), ..old(self).kitty_map()[id@] },
                )
                &&& final(self).count() == old(self).count()
                &&& final(self).dna_map() == old(self).dna_map()
                &&& final(self).limits() == old(self).limits()
                &&& forall|a: AccountId| #[trigger] final(self).owned_of(a) == old(self).owned_of(a)
            },
    {
        let i = match self.find_kitty(id) {
            Some(i) => i,
            None => return Err(Error::KittyNotExist),
        };
        if name.len() as u64 > self.config.max_name_length as u64 {
            return Err(Error::NameTooLong);
        }
        if (name.len() as u64) < self.config.min_name_length as u64 {
            return Err(Error::NameTooShort);
        }
        let owner = self.kitties[i].1.owner;
        let price = self.kitties[i].1.price;
        self.modify_kitty(i, owner, price, Some(Some(name)));
        proof {
            self.lemma_owned_frame(*old(self));
            Self::lemma_consistent_after_relabel(*old(self), *self, id@, self.kitty_map()[id@]);
        }
        Ok(())
    }

    /// Names a kitty that `sender` owns.
    pub fn name_kitty(&mut self, sender: AccountId, id: &KittyId, name: Vec<u8>) -> (r: Result<(), Error>)
        requires
            old(self).wf(),
        ensures
            final(self).wf(),
            final(self).limits() == old(self).limits(),
            !old(self).kitty_map().contains_key(id@) ==> r == Err::<(), Error>(Error::KittyNotExist),
            old(self).kitty_map().contains_key(id@) && old(self).kitty_map()[id@].owner != sender
                ==> r == Err::<(), Error>(Error::NotKittyOwner),
            old(self).kitty_map().contains_key(id@) && old(self).kitty_map()[id@].owner == sender
                && name@.len() > old(self).limits().max_name_length ==> r == Err::<(), Error>(Error::NameTooLong),
            old(self).kitty_map().contains_key(id@) && old(self).kitty_map()[id@].owner == sender
                && name@.len() < old(self).limits().min_name_length
                && name@.len() <= old(self).limits().max_name_length ==> r == Err::<(), Error>(Error::NameTooShort),
            r is Err ==> *final(self) == *old(self),
            old(self).kitty_map().contains_key(id@) && old(self).kitty_map()[id@].owner == sender
                && old(self).limits().min_name_length <= name@.len() <= old(self).limits().max_name_length ==> {
                &&& r is Ok
                &&& final(self).kitty_map() == old(self).kitty_map().insert(
                    id@,
                    KittyView { name: Some(name@), ..old(self).kitty_map()[id@] },
                )
                &&& final(self).count() == old(self).count()
                &&& final(self).dna_map() == old(self).dna_map()
                &&& forall|a: AccountId| #[trigger] final(self).owned_of(a) == old(self).owned_of(a)
            },
    {
        match self.is_kitty_owner(id, sender) {
            Err(e) => return Err(e),
            Ok(false) => return Err(Error::NotKittyOwner),
            Ok(true) => {},
        }
        self.add_kitty_name(id, name)
    }

    /// The id of the latest kitty minted with the given dna.
    pub fn fetch_kitty_id(&self, dna: &Dna) -> (r: Option<KittyId>)
        requires
            self.wf(),
        ensures
            match r {
                Some(id) => self.dna_map().contains_key(dna@) && id@ == self.dna_map()[dna@],
                None => !self.dna_map().contains_key(dna@),
            },
    {
        self.dna_to_kitty(dna)
    }
}

/// Breeding two parents of the same gender, both the caller's, is refused with
/// `SameSex`; by the contract of `breed_kitty` nothing is then minted.
pub proof fn lemma_same_sex_rejected(pre: Pallet, sender: AccountId, p1: Seq<u8>, p2: Seq<u8>)
    requires
        pre.kitty_map().contains_key(p1),
        pre.kitty_map().contains_key(p2),
        pre.kitty_map()[p1].owner == sender,
        pre.kitty_map()[p2].owner == sender,
        pre.kitty_map()[p1].gender == pre.kitty_map()[p2].gender,
    ensures
        breed_error(pre, sender, p1, p2) == Some(Error::SameSex),
{
}

/// A mint for an account that already holds the most kitties it may is refused
/// with `ExceedMaxKittyOwned` once the counter and identity checks pass, and that
/// account's ids stay as they were.
pub proof fn lemma_full_owner_mint_rejected(pre: Pallet, post: Pallet, k: KittyView, r: Result<KittyId, Error>)
    requires
        pre.owned_of(k.owner).len() >= pre.limits().max_kitty_owned,
        pre.count() < u64::MAX,
        !pre.kitty_map().contains_key(kitty_id_of(k)),
        mint_outcome(pre, post, k, r),
    ensures
        r == Err::<KittyId, Error>(Error::ExceedMaxKittyOwned),
        post.owned_of(k.owner) == pre.owned_of(k.owner),
{
}

} // verus!
