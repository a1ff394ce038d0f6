//! Verified key-value stores backing the marketplace state.
//!
//! Each store is an association list with pairwise-distinct keys, viewed in
//! specifications as a mathematical `Map`. Three key shapes are provided: a
//! single account, a `(publisher, game)` pair, and a
//! `(buyer, publisher, game)` triple.

use vstd::prelude::*;

verus! {

/// The map denoted by a sequence of `(account, value)` entries, later entries
/// taking precedence (entries are in fact pairwise distinct, see
/// [`account_keys_unique`]).
pub open spec fn account_entries_map<V>(s: Seq<(u64, V)>) -> Map<int, V>
    decreases s.len(),
{
    if s.len() == 0 {
        Map::empty()
    } else {
        account_entries_map(s.drop_last()).insert(s.last().0 as int, s.last().1)
    }
}

/// No two entries share a key.
pub open spec fn account_keys_unique<V>(s: Seq<(u64, V)>) -> bool {
    forall|i: int, j: int|
        0 <= i < j < s.len() ==> (#[trigger] s[i]).0 != (#[trigger] s[j]).0
}

proof fn lemma_account_map_index<V>(s: Seq<(u64, V)>, i: int)
    requires
        account_keys_unique(s),
        0 <= i < s.len(),
    ensures
        account_entries_map(s).contains_key(s[i].0 as int),
        account_entries_map(s)[s[i].0 as int] == s[i].1,
    decreases s.len(),
{
    if i < s.len() - 1 {
        assert(account_keys_unique(s.drop_last()));
        lemma_account_map_index(s.drop_last(), i);
        assert(s[i].0 != s.last().0);
    }
}

proof fn lemma_account_map_absent<V>(s: Seq<(u64, V)>, k: int)
    requires
        forall|i: int| 0 <= i < s.len() ==> (#[trigger] s[i]).0 as int != k,
    ensures
        !account_entries_map(s).contains_key(k),
    decreases s.len(),
{
    if s.len() > 0 {
        lemma_account_map_absent(s.drop_last(), k);
    }
}

proof fn lemma_account_map_remove<V>(s: Seq<(u64, V)>, i: int)
    requires
        account_keys_unique(s),
        0 <= i < s.len(),
    ensures
        account_keys_unique(s.remove(i)),
        account_entries_map(s.remove(i)) == account_entries_map(s).remove(s[i].0 as int),
    decreases s.len(),
{
    let k = s[i].0 as int;
    s.remove_ensures(i);
    assert forall|a: int, b: int| 0 <= a < b < s.remove(i).len() implies (#[trigger] s.remove(
        i,
    )[a]).0 != (#[trigger] s.remove(i)[b]).0 by {
        let a0 = if a < i { a } else { a + 1 };
        let b0 = if b < i { b } else { b + 1 };
        assert(s.remove(i)[a] == s[a0]);
        assert(s.remove(i)[b] == s[b0]);
    }
    if i == s.len() - 1 {
        assert(s.remove(i) =~= s.drop_last());
        assert forall|j: int| 0 <= j < s.drop_last().len() implies (#[trigger] s.drop_last()[j]).0
            as int != k by {
            assert(s.drop_last()[j] == s[j]);
        }
        lemma_account_map_absent(s.drop_last(), k);
        assert(account_entries_map(s).remove(k) =~= account_entries_map(s.drop_last()));
    } else {
        let t = s.drop_last();
        assert(account_keys_unique(t));
        assert(s.remove(i).drop_last() =~= t.remove(i));
        assert(s.remove(i).last() == s.last());
        lemma_account_map_remove(t, i);
        assert(t[i] == s[i]);
        assert(s.last().0 as int != k);
        assert(account_entries_map(t).remove(k).insert(s.last().0 as int, s.last().1)
            =~= account_entries_map(t).insert(s.last().0 as int, s.last().1).remove(k));
    }
}

/// A store keyed by a single account identifier.
pub struct AccountMap<V> {
    entries: Vec<(u64, V)>,
}

impl<V> View for AccountMap<V> {
    type V = Map<int, V>;

    closed spec fn view(&self) -> Map<int, V> {
        account_entries_map(self.entries@)
    }
}

impl<V> AccountMap<V> {
    /// The store's internal invariant: entry keys are pairwise distinct.
    pub closed spec fn wf(&self) -> bool {
        account_keys_unique(self.entries@)
    }

    /// Creates an empty store.
    pub fn new() -> (r: Self)
        ensures
            r.wf(),
            r@ == Map::<int, V>::empty(),
    {
        AccountMap { entries: Vec::new() }
    }

    /// Looks a key up.
    pub fn get(&self, key: u64) -> (r: Option<&V>)
        requires
            self.wf(),
        ensures
            match r {
                Some(v) => self@.contains_key(key as int) && self@[key as int] == *v,
                None => !self@.contains_key(key as int),
            },
    {
        let n = self.entries.len();
        let mut i: usize = 0;
        while i < n
            invariant
                self.wf(),
                n == self.entries@.len(),
                0 <= i <= n,
                forall|j: int| 0 <= j < i ==> (#[trigger] self.entries@[j]).0 != key,
            decreases n - i,
        {
            if self.entries[i].0 == key {
                proof {
                    lemma_account_map_index(self.entries@, i as int);
                }
                return Some(&self.entries[i].1);
            }
            i = i + 1;
        }
        proof {
            lemma_account_map_absent(self.entries@, key as int);
        }
        None
    }

    /// Whether a key is present.
    pub fn contains_key(&self, key: u64) -> (r: bool)
        requires
            self.wf(),
        ensures
            r == self@.contains_key(key as int),
    {
        self.get(key).is_some()
    }

    /// Inserts a value under a key that is not yet present.
    pub fn insert_new(&mut self, key: u64, value: V)
        requires
            old(self).wf(),
            !old(self)@.contains_key(key as int),
        ensures
            final(self).wf(),
            final(self)@ == old(self)@.insert(key as int, value),
    {
        proof {
            assert forall|j: int| 0 <= j < self.entries@.len() implies (#[trigger] self.entries@[
                j
            ]).0 != key by {
                if self.entries@[j].0 == key {
                    lemma_account_map_index(self.entries@, j);
                }
            }
        }
        let ghost s0 = self.entries@;
        self.entries.push((key, value));
        proof {
            assert(self.entries@.drop_last() =~= s0);
            assert(account_keys_unique(self.entries@));
        }
    }

    /// Inserts a value under a key, replacing any value already there.
    pub fn set(&mut self, key: u64, value: V)
        requires
            old(self).wf(),
        ensures
            final(self).wf(),
            final(self)@ == old(self)@.insert(key as int, value),
    {
        let ghost m0 = self@;
        let n = self.entries.len();
        let mut i: usize = 0;
        while i < n
            invariant
                self.wf(),
                self@ == m0,
                old(self)@ == m0,
                n == self.entries@.len(),
                0 <= i <= n,
                forall|j: int| 0 <= j < i ==> (#[trigger] self.entries@[j]).0 != key,
            decreases n - i,
        {
            if self.entries[i].0 == key {
                proof {
                    lemma_account_map_index(self.entries@, i as int);
                    lemma_account_map_remove(self.entries@, i as int);
                }
                let ghost s1 = self.entries@.remove(i as int);
                self.entries.remove(i);
                proof {
                    assert forall|j: int| 0 <= j < s1.len() implies (#[trigger] s1[j]).0 != key by {
                        if s1[j].0 == key {
                            lemma_account_map_index(s1, j);
                        }
                    }
                }
                self.entries.push((key, value));
                proof {
                    assert(self.entries@.drop_last() =~= s1);
                    assert(account_keys_unique(self.entries@));
                    assert(m0.remove(key as int).insert(key as int, value) =~= m0.insert(
                        key as int,
                        value,
                    ));
                }
                return ;
            }
            i = i + 1;
        }
        proof {
            lemma_account_map_absent(self.entries@, key as int);
        }
        let ghost s0 = self.entries@;
        self.entries.push((key, value));
        proof {
            assert(self.entries@.drop_last() =~= s0);
            assert(account_keys_unique(self.entries@));
        }
    }
}

/// The map denoted by a sequence of `(publisher, game, value)` entries.
pub open spec fn listing_entries_map<V>(s: Seq<(u64, u16, V)>) -> Map<(int, int), V>
    decreases s.len(),
{
    if s.len() == 0 {
        Map::empty()
    } else {
        listing_entries_map(s.drop_last()).insert(
            (s.last().0 as int, s.last().1 as int),
            s.last().2,
        )
    }
}

/// No two entries share a `(publisher, game)` key.
pub open spec fn listing_keys_unique<V>(s: Seq<(u64, u16, V)>) -> bool {
    forall|i: int, j: int|
        0 <= i < j < s.len() ==> ((#[trigger] s[i]).0, s[i].1) != ((#[trigger] s[j]).0, s[j].1)
}

proof fn lemma_listing_map_index<V>(s: Seq<(u64, u16, V)>, i: int)
    requires
        listing_keys_unique(s),
        0 <= i < s.len(),
    ensures
        listing_entries_map(s).contains_key((s[i].0 as int, s[i].1 as int)),
        listing_entries_map(s)[(s[i].0 as int, s[i].1 as int)] == s[i].2,
    decreases s.len(),
{
    if i < s.len() - 1 {
        assert(listing_keys_unique(s.drop_last()));
        lemma_listing_map_index(s.drop_last(), i);
        assert((s[i].0, s[i].1) != (s.last().0, s.last().1));
    }
}

proof fn lemma_listing_map_absent<V>(s: Seq<(u64, u16, V)>, k: (int, int))
    requires
        forall|i: int| 0 <= i < s.len() ==> ((#[trigger] s[i]).0 as int, s[i].1 as int) != k,
    ensures
        !listing_entries_map(s).contains_key(k),
    decreases s.len(),
{
    if s.len() > 0 {
        lemma_listing_map_absent(s.drop_last(), k);
    }
}

proof fn lemma_listing_map_remove<V>(s: Seq<(u64, u16, V)>, i: int)
    requires
        listing_keys_unique(s),
        0 <= i < s.len(),
    ensures
        listing_keys_unique(s.remove(i)),
        listing_entries_map(s.remove(i)) == listing_entries_map(s).remove(
            (s[i].0 as int, s[i].1 as int),
        ),
    decreases s.len(),
{
    let k = (s[i].0 as int, s[i].1 as int);
    s.remove_ensures(i);
    assert forall|a: int, b: int| 0 <= a < b < s.remove(i).len() implies ((#[trigger] s.remove(
        i,
    )[a]).0, s.remove(i)[a].1) != ((#[trigger] s.remove(i)[b]).0, s.remove(i)[b].1) by {
        let a0 = if a < i { a } else { a + 1 };
        let b0 = if b < i { b } else { b + 1 };
        assert(s.remove(i)[a] == s[a0]);
        assert(s.remove(i)[b] == s[b0]);
    }
    if i == s.len() - 1 {
        assert(s.remove(i) =~= s.drop_last());
        assert forall|j: int| 0 <= j < s.drop_last().len() implies ((#[trigger] s.drop_last()[
            j
        ]).0 as int, s.drop_last()[j].1 as int) != k by {
            assert(s.drop_last()[j] == s[j]);
        }
        lemma_listing_map_absent(s.drop_last(), k);
        assert(listing_entries_map(s).remove(k) =~= listing_entries_map(s.drop_last()));
    } else {
        let t = s.drop_last();
        assert(listing_keys_unique(t));
        assert(s.remove(i).drop_last() =~= t.remove(i));
        assert(s.remove(i).last() == s.last());
        lemma_listing_map_remove(t, i);
        assert(t[i] == s[i]);
        let lk = (s.last().0 as int, s.last().1 as int);
        assert(lk != k);
        assert(listing_entries_map(t).remove(k).insert(lk, s.last().2)
            =~= listing_entries_map(t).insert(lk, s.last().2).remove(k));
    }
}

/// A store keyed by a `(publisher, game)` pair.
pub struct ListingMap<V> {
    entries: Vec<(u64, u16, V)>,
}

impl<V> View for ListingMap<V> {
    type V = Map<(int, int), V>;

    closed spec fn view(&self) -> Map<(int, int), V> {
        listing_entries_map(self.entries@)
    }
}

impl<V> ListingMap<V> {
    /// The store's internal invariant: entry keys are pairwise distinct.
    pub closed spec fn wf(&self) -> bool {
        listing_keys_unique(self.entries@)
    }

    /// Creates an empty store.
    pub fn new() -> (r: Self)
        ensures
            r.wf(),
            r@ == Map::<(int, int), V>::empty(),
    {
        ListingMap { entries: Vec::new() }
    }

    /// Looks a key up.
    pub fn get(&self, publisher: u64, game: u16) -> (r: Option<&V>)
        requires
            self.wf(),
        ensures
            match r {
                Some(v) => self@.contains_key((publisher as int, game as int)) && self@[
                    (publisher as int, game as int)
                ] == *v,
                None => !self@.contains_key((publisher as int, game as int)),
            },
    {
        let n = self.entries.len();
        let mut i: usize = 0;
        while i < n
            invariant
                self.wf(),
                n == self.entries@.len(),
                0 <= i <= n,
                forall|j: int|
                    0 <= j < i ==> ((#[trigger] self.entries@[j]).0, self.entries@[j].1) != (
                    publisher,
                    game,
                    ),
            decreases n - i,
        {
            if self.entries[i].0 == publisher && self.entries[i].1 == game {
                proof {
                    lemma_listing_map_index(self.entries@, i as int);
                }
                return Some(&self.entries[i].2);
            }
            i = i + 1;
        }
        proof {
            lemma_listing_map_absent(self.entries@, (publisher as int, game as int));
        }
        None
    }

    /// Whether a key is present.
    pub fn contains_key(&self, publisher: u64, game: u16) -> (r: bool)
        requires
            self.wf(),
        ensures
            r == self@.contains_key((publisher as int, game as int)),
    {
        self.get(publisher, game).is_some()
    }

    /// Inserts a value under a key that is not yet present.
    pub fn insert_new(&mut self, publisher: u64, game: u16, value: V)
        requires
            old(self).wf(),
            !old(self)@.contains_key((publisher as int, game as int)),
        ensures
            final(self).wf(),
            final(self)@ == old(self)@.insert((publisher as int, game as int), value),
    {
        proof {
            assert forall|j: int| 0 <= j < self.entries@.len() implies ((#[trigger] self.entries@[
                j
            ]).0, self.entries@[j].1) != (publisher, game) by {
                if (self.entries@[j].0, self.entries@[j].1) == (publisher, game) {
                    lemma_listing_map_index(self.entries@, j);
                }
            }
        }
        let ghost s0 = self.entries@;
        self.entries.push((publisher, game, value));
        proof {
            assert(self.entries@.drop_last() =~= s0);
            assert(listing_keys_unique(self.entries@));
        }
    }

    /// Removes a key that is present.
    pub fn remove(&mut self, publisher: u64, game: u16)
        requires
            old(self).wf(),
            old(self)@.contains_key((publisher as int, game as int)),
        ensures
            final(self).wf(),
            final(self)@ == old(self)@.remove((publisher as int, game as int)),
    {
        let ghost m0 = self@;
        let n = self.entries.len();
        let mut i: usize = 0;
        while i < n
            invariant
                self.wf(),
                self@ == m0,
                old(self)@ == m0,
                m0.contains_key((publisher as int, game as int)),
                n == self.entries@.len(),
                0 <= i <= n,
                forall|j: int|
                    0 <= j < i ==> ((#[trigger] self.entries@[j]).0, self.entries@[j].1) != (
                    publisher,
                    game,
                    ),
            decreases n - i,
        {
            if self.entries[i].0 == publisher && self.entries[i].1 == game {
                proof {
                    lemma_listing_map_remove(self.entries@, i as int);
                }
                self.entries.remove(i);
                return ;
            }
            i = i + 1;
        }
        proof {
            lemma_listing_map_absent(self.entries@, (publisher as int, game as int));
        }
    }
}

/// The map denoted by a sequence of `(buyer, publisher, game, value)` entries.
pub open spec fn order_entries_map<V>(s: Seq<(u64, u64, u16, V)>) -> Map<(int, int, int), V>
    decreases s.len(),
{
    if s.len() == 0 {
        Map::empty()
    } else {
        order_entries_map(s.drop_last()).insert(
            (s.last().0 as int, s.last().1 as int, s.last().2 as int),
            s.last().3,
        )
    }
}

/// No two entries share a `(buyer, publisher, game)` key.
pub open spec fn order_keys_unique<V>(s: Seq<(u64, u64, u16, V)>) -> bool {
    forall|i: int, j: int|
        0 <= i < j < s.len() ==> ((#[trigger] s[i]).0, s[i].1, s[i].2) != (
        (#[trigger] s[j]).0,
        s[j].1,
        s[j].2,
        )
}

proof fn lemma_order_map_index<V>(s: Seq<(u64, u64, u16, V)>, i: int)
    requires
        order_keys_unique(s),
        0 <= i < s.len(),
    ensures
        order_entries_map(s).contains_key((s[i].0 as int, s[i].1 as int, s[i].2 as int)),
        order_entries_map(s)[(s[i].0 as int, s[i].1 as int, s[i].2 as int)] == s[i].3,
    decreases s.len(),
{
    if i < s.len() - 1 {
        assert(order_keys_unique(s.drop_last()));
        lemma_order_map_index(s.drop_last(), i);
        assert((s[i].0, s[i].1, s[i].2) != (s.last().0, s.last().1, s.last().2));
    }
}

proof fn lemma_order_map_absent<V>(s: Seq<(u64, u64, u16, V)>, k: (int, int, int))
    requires
        forall|i: int|
            0 <= i < s.len() ==> ((#[trigger] s[i]).0 as int, s[i].1 as int, s[i].2 as int) != k,
    ensures
        !order_entries_map(s).contains_key(k),
    decreases s.len(),
{
    if s.len() > 0 {
        lemma_order_map_absent(s.drop_last(), k);
    }
}

proof fn lemma_order_map_remove<V>(s: Seq<(u64, u64, u16, V)>, i: int)
    requires
        order_keys_unique(s),
        0 <= i < s.len(),
    ensures
        order_keys_unique(s.remove(i)),
        order_entries_map(s.remove(i)) == order_entries_map(s).remove(
            (s[i].0 as int, s[i].1 as int, s[i].2 as int),
        ),
    decreases s.len(),
{
    let k = (s[i].0 as int, s[i].1 as int, s[i].2 as int);
    s.remove_ensures(i);
    assert forall|a: int, b: int| 0 <= a < b < s.remove(i).len() implies ((#[trigger] s.remove(
        i,
    )[a]).0, s.remove(i)[a].1, s.remove(i)[a].2) != ((#[trigger] s.remove(i)[b]).0, s.remove(
        i,
    )[b].1, s.remove(i)[b].2) by {
        let a0 = if a < i { a } else { a + 1 };
        let b0 = if b < i { b } else { b + 1 };
        assert(s.remove(i)[a] == s[a0]);
        assert(s.remove(i)[b] == s[b0]);
    }
    if i == s.len() - 1 {
        assert(s.remove(i) =~= s.drop_last());
        assert forall|j: int| 0 <= j < s.drop_last().len() implies ((#[trigger] s.drop_last()[
            j
        ]).0 as int, s.drop_last()[j].1 as int, s.drop_last()[j].2 as int) != k by {
            assert(s.drop_last()[j] == s[j]);
        }
        lemma_order_map_absent(s.drop_last(), k);
        assert(order_entries_map(s).remove(k) =~= order_entries_map(s.drop_last()));
    } else {
        let t = s.drop_last();
        assert(order_keys_unique(t));
        assert(s.remove(i).drop_last() =~= t.remove(i));
        assert(s.remove(i).last() == s.last());
        lemma_order_map_remove(t, i);
        assert(t[i] == s[i]);
        let lk = (s.last().0 as int, s.last().1 as int, s.last().2 as int);
        assert(lk != k);
        assert(order_entries_map(t).remove(k).insert(lk, s.last().3) =~= order_entries_map(
            t,
        ).insert(lk, s.last().3).remove(k));
    }
}

/// A store keyed by a `(buyer, publisher, game)` triple.
pub struct OrderMap<V> {
    entries: Vec<(u64, u64, u16, V)>,
}

impl<V> View for OrderMap<V> {
    type V = Map<(int, int, int), V>;

    closed spec fn view(&self) -> Map<(int, int, int), V> {
        order_entries_map(self.entries@)
    }
}

impl<V> OrderMap<V> {
    /// The store's internal invariant: entry keys are pairwise distinct.
    pub closed spec fn wf(&self) -> bool {
        order_keys_unique(self.entries@)
    }

    /// Creates an empty store.
    pub fn new() -> (r: Self)
        ensures
            r.wf(),
            r@ == Map::<(int, int, int), V>::empty(),
    {
        OrderMap { entries: Vec::new() }
    }

    /// Looks a key up.
    pub fn get(&self, buyer: u64, publisher: u64, game: u16) -> (r: Option<&V>)
        requires
            self.wf(),
        ensures
            match r {
                Some(v) => self@.contains_key((buyer as int, publisher as int, game as int))
                    && self@[(buyer as int, publisher as int, game as int)] == *v,
                None => !self@.contains_key((buyer as int, publisher as int, game as int)),
            },
    {
        let n = self.entries.len();
        let mut i: usize = 0;
        while i < n
            invariant
                self.wf(),
                n == self.entries@.len(),
                0 <= i <= n,
                forall|j: int|
                    0 <= j < i ==> ((#[trigger] self.entries@[j]).0, self.entries@[j].1,
                    self.entries@[j].2) != (buyer, publisher, game),
            decreases n - i,
        {
            if self.entries[i].0 == buyer && self.entries[i].1 == publisher && self.entries[i].2
                == game {
                proof {
                    lemma_order_map_index(self.entries@, i as int);
                }
                return Some(&self.entries[i].3);
            }
            i = i + 1;
        }
        proof {
            lemma_order_map_absent(
                self.entries@,
                (buyer as int, publisher as int, game as int),
            );
        }
        None
    }

    /// Whether a key is present.
    pub fn contains_key(&self, buyer: u64, publisher: u64, game: u16) -> (r: bool)
        requires
            self.wf(),
        ensures
            r == self@.contains_key((buyer as int, publisher as int, game as int)),
    {
        self.get(buyer, publisher, game).is_some()
    }

    /// Inserts a value under a key that is not yet present.
    pub fn insert_new(&mut self, buyer: u64, publisher: u64, game: u16, value: V)
        requires
            old(self).wf(),
            !old(self)@.contains_key((buyer as int, publisher as int, game as int)),
        ensures
            final(self).wf(),
            final(self)@ == old(self)@.insert(
                (buyer as int, publisher as int, game as int),
                value,
            ),
    {
        proof {
            assert forall|j: int| 0 <= j < self.entries@.len() implies ((#[trigger] self.entries@[
                j
            ]).0, self.entries@[j].1, self.entries@[j].2) != (buyer, publisher, game) by {
                if (self.entries@[j].0, self.entries@[j].1, self.entries@[j].2) == (
                    buyer,
                    publisher,
                    game,
                ) {
                    lemma_order_map_index(self.entries@, j);
                }
            }
        }
        let ghost s0 = self.entries@;
        self.entries.push((buyer, publisher, game, value));
        proof {
            assert(self.entries@.drop_last() =~= s0);
            assert(order_keys_unique(self.entries@));
        }
    }

    /// Removes a key that is present.
    pub fn remove(&mut self, buyer: u64, publisher: u64, game: u16)
        requires
            old(self).wf(),
            old(self)@.contains_key((buyer as int, publisher as int, game as int)),
        ensures
            final(self).wf(),
            final(self)@ == old(self)@.remove((buyer as int, publisher as int, game as int)),
    {
        let ghost m0 = self@;
        let n = self.entries.len();
        let mut i: usize = 0;
        while i < n
            invariant
                self.wf(),
                self@ == m0,
                old(self)@ == m0,
                m0.contains_key((buyer as int, publisher as int, game as int)),
                n == self.entries@.len(),
                0 <= i <= n,
                forall|j: int|
                    0 <= j < i ==> ((#[trigger] self.entries@[j]).0, self.entries@[j].1,
                    self.entries@[j].2) != (buyer, publisher, game),
            decreases n - i,
        {
            if self.entries[i].0 == buyer && self.entries[i].1 == publisher && self.entries[i].2
                == game {
                proof {
                    lemma_order_map_remove(self.entries@, i as int);
                }
                self.entries.remove(i);
                return ;
            }
            i = i + 1;
        }
        proof {
            lemma_order_map_absent(
                self.entries@,
                (buyer as int, publisher as int, game as int),
            );
        }
    }
}

} // verus!
