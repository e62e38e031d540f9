//! Sets and maps of byte strings of one length, such as keys, kept
//! in lexicographic order. What vstd says about std's maps and sets it says only
//! of keys whose hash or order it describes, and byte arrays are not among them.

use vstd::prelude::*;

use crate::accounts::copy_items;
use crate::codec::same_array;
use crate::order::{lex_less, lex_less_than, lex_order_is_total, lex_order_is_transitive};

verus! {

/// Every key is less than every later one.
pub open spec fn increasing<const N: usize>(keys: Seq<[u8; N]>) -> bool {
    forall|i: int, j: int| 0 <= i < j < keys.len() ==> lex_less(#[trigger] keys[i], #[trigger] keys[j])
}

/// The keys before position `at` are less than `key`, those from there on
/// are greater.
pub open spec fn splits<const N: usize>(keys: Seq<[u8; N]>, key: [u8; N], at: int) -> bool {
    &&& 0 <= at <= keys.len()
    &&& forall|i: int| 0 <= i < at ==> lex_less(#[trigger] keys[i], key)
    &&& forall|i: int| at <= i < keys.len() ==> lex_less(key, #[trigger] keys[i])
}

proof fn lemma_increasing_distinct<const N: usize>(keys: Seq<[u8; N]>, i: int, j: int)
    requires
        increasing(keys),
        0 <= i < keys.len(),
        0 <= j < keys.len(),
        keys[i] == keys[j],
    ensures
        i == j,
{
    if i < j {
        lex_order_is_total(keys[i], keys[j]);
    } else if j < i {
        lex_order_is_total(keys[j], keys[i]);
    }
}

proof fn lemma_split_is_absent<const N: usize>(keys: Seq<[u8; N]>, key: [u8; N], at: int)
    requires
        splits(keys, key, at),
    ensures
        !keys.contains(key),
{
    if keys.contains(key) {
        let i = choose|i: int| 0 <= i < keys.len() && keys[i] == key;
        lex_order_is_total(key, key);
    }
}

proof fn lemma_insert_increasing<const N: usize>(keys: Seq<[u8; N]>, key: [u8; N], at: int)
    requires
        increasing(keys),
        splits(keys, key, at),
    ensures
        increasing(keys.insert(at, key)),
        forall|k: [u8; N]| #[trigger] keys.insert(at, key).contains(k) <==> keys.contains(k) || k == key,
{
    let after = keys.insert(at, key);
    assert forall|i: int, j: int| 0 <= i < j < after.len() implies lex_less(
        #[trigger] after[i],
        #[trigger] after[j],
    ) by {
        if i < at && j > at {
            lex_order_is_transitive(keys[i], key, keys[j - 1]);
        }
    }
    assert forall|k: [u8; N]| #[trigger] after.contains(k) <==> keys.contains(k) || k == key by {
        if keys.contains(k) {
            let i = choose|i: int| 0 <= i < keys.len() && keys[i] == k;
            if i < at {
                assert(after[i] == k);
            } else {
                assert(after[i + 1] == k);
            }
        }
        if k == key {
            assert(after[at] == k);
        }
        if after.contains(k) {
            let i = choose|i: int| 0 <= i < after.len() && after[i] == k;
            if i < at {
                assert(keys[i] == k);
            } else if i > at {
                assert(keys[i - 1] == k);
            }
        }
    }
}

/// The keys of a set, in increasing order.
pub open spec fn ordered<const N: usize>(set: Set<[u8; N]>) -> Seq<[u8; N]> {
    choose|keys: Seq<[u8; N]>| #[trigger] increasing(keys) && keys.to_set() == set
}

proof fn lemma_first_is_least<const N: usize>(a: Seq<[u8; N]>, b: Seq<[u8; N]>)
    requires
        increasing(a),
        increasing(b),
        a.to_set() == b.to_set(),
        a.len() > 0,
        b.len() > 0,
    ensures
        a[0] == b[0],
{
    assert(a.contains(a[0]));
    assert(b.contains(b[0]));
    assert(b.to_set().contains(a[0]));
    assert(a.to_set().contains(b[0]));
    let j = choose|j: int| 0 <= j < b.len() && b[j] == a[0];
    let i = choose|i: int| 0 <= i < a.len() && a[i] == b[0];
    if a[0] != b[0] {
        assert(lex_less(b[0], b[j]));
        assert(lex_less(a[0], a[i]));
        lex_order_is_total(a[0], b[0]);
    }
}

proof fn lemma_rest_has_the_rest<const N: usize>(keys: Seq<[u8; N]>)
    requires
        increasing(keys),
        keys.len() > 0,
    ensures
        increasing(keys.drop_first()),
        keys.drop_first().to_set() == keys.to_set().remove(keys[0]),
{
    let rest = keys.drop_first();
    assert forall|k: [u8; N]| rest.to_set().contains(k) <==> #[trigger] keys.to_set().remove(
        keys[0],
    ).contains(k) by {
        if rest.contains(k) {
            let i = choose|i: int| 0 <= i < rest.len() && rest[i] == k;
            assert(keys[i + 1] == k);
            lex_order_is_total(keys[0], keys[i + 1]);
        }
        if keys.contains(k) && k != keys[0] {
            let i = choose|i: int| 0 <= i < keys.len() && keys[i] == k;
            assert(rest[i - 1] == k);
        }
    }
    assert(rest.to_set() =~= keys.to_set().remove(keys[0]));
}

proof fn lemma_one_order<const N: usize>(a: Seq<[u8; N]>, b: Seq<[u8; N]>)
    requires
        increasing(a),
        increasing(b),
        a.to_set() == b.to_set(),
    ensures
        a == b,
    decreases a.len(),
{
    if a.len() == 0 {
        if b.len() > 0 {
            assert(b.contains(b[0]));
            assert(a.to_set().contains(b[0]));
        }
        assert(a =~= b);
    } else {
        assert(a.contains(a[0]));
        assert(b.to_set().contains(a[0]));
        assert(b.len() > 0);
        lemma_first_is_least(a, b);
        lemma_rest_has_the_rest(a);
        lemma_rest_has_the_rest(b);
        lemma_one_order(a.drop_first(), b.drop_first());
        assert(a =~= seq![a[0]] + a.drop_first());
        assert(b =~= seq![b[0]] + b.drop_first());
    }
}

/// A set has one order.
pub proof fn lemma_ordered<const N: usize>(keys: Seq<[u8; N]>)
    requires
        increasing(keys),
    ensures
        ordered(keys.to_set()) == keys,
{
    lemma_one_order(ordered(keys.to_set()), keys);
}

proof fn lemma_split_exists<const N: usize>(keys: Seq<[u8; N]>, key: [u8; N]) -> (at: int)
    requires
        increasing(keys),
        !keys.contains(key),
    ensures
        splits(keys, key, at),
    decreases keys.len(),
{
    if keys.len() == 0 {
        0
    } else {
        let last = keys.last();
        assert(keys.contains(last));
        lex_order_is_total(last, key);
        if lex_less(last, key) {
            assert forall|i: int| 0 <= i < keys.len() implies lex_less(#[trigger] keys[i], key) by {
                if i < keys.len() - 1 {
                    lex_order_is_transitive(keys[i], last, key);
                }
            }
            keys.len() as int
        } else {
            let rest = keys.drop_last();
            assert forall|i: int| 0 <= i < rest.len() implies rest[i] != key by {
                assert(keys.contains(keys[i]));
            }
            let at = lemma_split_exists(rest, key);
            assert forall|i: int| 0 <= i < at implies lex_less(#[trigger] keys[i], key) by {
                assert(rest[i] == keys[i]);
            }
            assert forall|i: int| at <= i < keys.len() implies lex_less(
                key,
                #[trigger] keys[i],
            ) by {
                if i < rest.len() {
                    assert(rest[i] == keys[i]);
                }
            }
            at
        }
    }
}

/// Every finite set has an order.
pub proof fn lemma_order_exists<const N: usize>(set: Set<[u8; N]>)
    requires
        set.finite(),
    ensures
        increasing(ordered(set)),
        ordered(set).to_set() == set,
    decreases set.len(),
{
    if set.len() == 0 {
        let none = Seq::<[u8; N]>::empty();
        assert(increasing(none));
        assert(none.to_set() =~= set);
    } else {
        let key = set.choose();
        let rest = set.remove(key);
        lemma_order_exists(rest);
        let keys = ordered(rest);
        assert(keys.contains(key) ==> keys.to_set().contains(key));
        let at = lemma_split_exists(keys, key);
        lemma_insert_increasing(keys, key, at);
        let all = keys.insert(at, key);
        assert forall|k: [u8; N]| all.to_set().contains(k) <==> #[trigger] set.contains(k) by {
            assert(all.contains(k) <==> keys.contains(k) || k == key);
            assert(keys.to_set().contains(k) <==> rest.contains(k));
        }
        assert(all.to_set() =~= set);
        assert(increasing(all));
    }
}

/// Where `key` is, or where it belongs.
fn search<const N: usize>(keys: &Vec<[u8; N]>, key: &[u8; N]) -> (r: Result<usize, usize>)
    requires
        increasing(keys@),
    ensures
        match r {
            Ok(i) => i < keys@.len() && keys@[i as int] == *key,
            Err(at) => splits(keys@, *key, at as int),
        },
{
    let mut low: usize = 0;
    let mut high: usize = keys.len();
    while low < high
        invariant
            increasing(keys@),
            low <= high <= keys@.len(),
            forall|i: int| 0 <= i < low ==> lex_less(#[trigger] keys@[i], *key),
            forall|i: int| high <= i < keys@.len() ==> lex_less(*key, #[trigger] keys@[i]),
        decreases high - low,
    {
        let middle: usize = low + (high - low) / 2;
        if same_array(&keys[middle], key) {
            return Ok(middle);
        }
        let ghost at = keys@[middle as int];
        proof {
            lex_order_is_total(at, *key);
        }
        if lex_less_than(&keys[middle], key) {
            proof {
                assert forall|i: int| 0 <= i < middle + 1 implies lex_less(
                    #[trigger] keys@[i],
                    *key,
                ) by {
                    if i < middle {
                        lex_order_is_transitive(keys@[i], at, *key);
                    }
                }
            }
            low = middle + 1;
        } else {
            proof {
                assert forall|i: int| middle <= i < keys@.len() implies lex_less(
                    *key,
                    #[trigger] keys@[i],
                ) by {
                    if i > middle {
                        lex_order_is_transitive(*key, at, keys@[i]);
                    }
                }
            }
            high = middle;
        }
    }
    Err(low)
}

/// A set of keys.
pub struct KeySet<const N: usize> {
    keys: Vec<[u8; N]>,
}

impl<const N: usize> View for KeySet<N> {
    type V = Set<[u8; N]>;

    closed spec fn view(&self) -> Set<[u8; N]> {
        self.keys@.to_set()
    }
}

impl<const N: usize> KeySet<N> {
    /// The keys in increasing order.
    pub closed spec fn listed(&self) -> Seq<[u8; N]> {
        self.keys@
    }

    pub closed spec fn well_formed(&self) -> bool {
        increasing(self.keys@)
    }

    pub fn new() -> (set: KeySet<N>)
        ensures
            set.well_formed(),
            set@ == Set::<[u8; N]>::empty(),
    {
        let set = KeySet { keys: Vec::new() };
        assert(set@ =~= Set::<[u8; N]>::empty());
        set
    }

    pub fn contains(&self, key: &[u8; N]) -> (found: bool)
        requires
            self.well_formed(),
        ensures
            found == self@.contains(*key),
    {
        match search(&self.keys, key) {
            Ok(i) => {
                assert(self.keys@[i as int] == *key);
                true
            },
            Err(at) => {
                proof {
                    lemma_split_is_absent(self.keys@, *key, at as int);
                }
                false
            },
        }
    }

    /// Adds a key. Returns whether it is new.
    pub fn insert(&mut self, key: [u8; N]) -> (new: bool)
        requires
            old(self).well_formed(),
        ensures
            final(self).well_formed(),
            final(self)@ == old(self)@.insert(key),
            new == !old(self)@.contains(key),
    {
        match search(&self.keys, &key) {
            Ok(i) => {
                assert(self.keys@[i as int] == key);
                assert(self@ =~= old(self)@.insert(key));
                false
            },
            Err(at) => {
                proof {
                    lemma_split_is_absent(self.keys@, key, at as int);
                    lemma_insert_increasing(self.keys@, key, at as int);
                }
                self.keys.insert(at, key);
                assert(self@ =~= old(self)@.insert(key));
                true
            },
        }
    }

    /// A copy of the set.
    pub fn copy(&self) -> (set: KeySet<N>)
        ensures
            set@ == self@,
            set.listed() == self.listed(),
            self.well_formed() ==> set.well_formed(),
    {
        KeySet { keys: copy_items(&self.keys) }
    }

    /// Whether there are no keys.
    pub fn is_empty(&self) -> (empty: bool)
        ensures
            empty == (self@ == Set::<[u8; N]>::empty()),
    {
        proof {
            if self.keys@.len() == 0 {
                assert(self@ =~= Set::<[u8; N]>::empty());
            } else {
                assert(self.keys@.contains(self.keys@[0]));
                assert(self@.contains(self.keys@[0]));
            }
        }
        self.keys.len() == 0
    }

    /// How many keys there are.
    pub fn len(&self) -> (n: usize)
        ensures
            n == self.listed().len(),
    {
        self.keys.len()
    }

    /// The key at a position in the order.
    pub fn key_at(&self, i: usize) -> (key: [u8; N])
        requires
            i < self.listed().len(),
        ensures
            key == self.listed()[i as int],
    {
        self.keys[i]
    }

    /// The keys are listed once each, in increasing order.
    pub proof fn lemma_listed(&self)
        requires
            self.well_formed(),
        ensures
            increasing(self.listed()),
            self.listed() == ordered(self@),
            forall|k: [u8; N]| #[trigger] self@.contains(k) <==> self.listed().contains(k),
            self@.finite(),
            self@.len() == self.listed().len(),
    {
        lemma_ordered(self.keys@);
        assert forall|i: int, j: int|
            0 <= i < self.keys@.len() && 0 <= j < self.keys@.len() && i
                != j implies #[trigger] self.keys@[i] != #[trigger] self.keys@[j] by {
            if self.keys@[i] == self.keys@[j] {
                lemma_increasing_distinct(self.keys@, i, j);
            }
        }
        self.keys@.unique_seq_to_set();
        vstd::seq_lib::seq_to_set_is_finite(self.keys@);
    }
}

/// A map from keys.
pub struct KeyMap<V, const N: usize> {
    keys: Vec<[u8; N]>,
    values: Vec<V>,
}

/// The position of a key.
pub open spec fn position<const N: usize>(keys: Seq<[u8; N]>, key: [u8; N]) -> int {
    choose|i: int| 0 <= i < keys.len() && keys[i] == key
}

/// The map with these keys and values.
pub open spec fn zipped<V, const N: usize>(keys: Seq<[u8; N]>, values: Seq<V>) -> Map<[u8; N], V> {
    Map::new(|key: [u8; N]| keys.contains(key), |key: [u8; N]| values[position(keys, key)])
}

proof fn lemma_zipped_at<V, const N: usize>(keys: Seq<[u8; N]>, values: Seq<V>, i: int)
    requires
        increasing(keys),
        keys.len() == values.len(),
        0 <= i < keys.len(),
    ensures
        keys.contains(keys[i]),
        zipped(keys, values)[keys[i]] == values[i],
{
    let p = position(keys, keys[i]);
    assert(keys[i] == keys[i]);
    assert(0 <= p < keys.len() && keys[p] == keys[i]);
    lemma_increasing_distinct(keys, p, i);
}

impl<V, const N: usize> View for KeyMap<V, N> {
    type V = Map<[u8; N], V>;

    closed spec fn view(&self) -> Map<[u8; N], V> {
        zipped(self.keys@, self.values@)
    }
}

impl<V, const N: usize> KeyMap<V, N> {
    /// The keys in increasing order.
    pub closed spec fn listed(&self) -> Seq<[u8; N]> {
        self.keys@
    }

    pub closed spec fn well_formed(&self) -> bool {
        increasing(self.keys@) && self.keys@.len() == self.values@.len()
    }

    pub fn new() -> (map: KeyMap<V, N>)
        ensures
            map.well_formed(),
            map@ == Map::<[u8; N], V>::empty(),
            map.listed() == Seq::<[u8; N]>::empty(),
    {
        let map = KeyMap { keys: Vec::new(), values: Vec::new() };
        assert(map@ =~= Map::<[u8; N], V>::empty());
        map
    }

    pub fn len(&self) -> (n: usize)
        ensures
            n == self.listed().len(),
    {
        self.keys.len()
    }

    pub fn key_at(&self, i: usize) -> (key: [u8; N])
        requires
            i < self.listed().len(),
        ensures
            key == self.listed()[i as int],
    {
        self.keys[i]
    }

    pub fn value_at(&self, i: usize) -> (value: &V)
        requires
            self.well_formed(),
            i < self.listed().len(),
        ensures
            self@.contains_key(self.listed()[i as int]),
            *value == self@[self.listed()[i as int]],
    {
        proof {
            lemma_zipped_at(self.keys@, self.values@, i as int);
        }
        &self.values[i]
    }

    pub fn get(&self, key: &[u8; N]) -> (value: Option<&V>)
        requires
            self.well_formed(),
        ensures
            match value {
                Some(value) => self@.contains_key(*key) && *value == self@[*key],
                None => !self@.contains_key(*key),
            },
    {
        match search(&self.keys, key) {
            Ok(i) => {
                proof {
                    lemma_zipped_at(self.keys@, self.values@, i as int);
                }
                Some(&self.values[i])
            },
            Err(at) => {
                proof {
                    lemma_split_is_absent(self.keys@, *key, at as int);
                }
                None
            },
        }
    }

    /// Sets the value of a key.
    pub fn insert(&mut self, key: [u8; N], value: V)
        requires
            old(self).well_formed(),
        ensures
            final(self).well_formed(),
            final(self)@ == old(self)@.insert(key, value),
    {
        match search(&self.keys, &key) {
            Ok(i) => {
                let ghost keys = self.keys@;
                let ghost before = self.values@;
                self.values.set(i, value);
                proof {
                    lemma_zipped_at(keys, self.values@, i as int);
                    assert forall|k: [u8; N]| keys.contains(k) && k != key implies zipped(
                        keys,
                        self.values@,
                    )[k] == zipped(keys, before)[k] by {
                        let p = position(keys, k);
                        assert(0 <= p < keys.len() && keys[p] == k);
                    }
                    assert(self@ =~= old(self)@.insert(key, value));
                }
            },
            Err(at) => {
                let ghost keys = self.keys@;
                let ghost before = self.values@;
                proof {
                    lemma_split_is_absent(keys, key, at as int);
                    lemma_insert_increasing(keys, key, at as int);
                }
                self.keys.insert(at, key);
                self.values.insert(at, value);
                proof {
                    let after = self.keys@;
                    lemma_zipped_at(after, self.values@, at as int);
                    assert forall|k: [u8; N]| keys.contains(k) implies zipped(after, self.values@)[k]
                        == zipped(keys, before)[k] by {
                        let p = position(keys, k);
                        assert(0 <= p < keys.len() && keys[p] == k);
                        lemma_zipped_at(keys, before, p);
                        if p < at {
                            assert(after[p] == k);
                            lemma_zipped_at(after, self.values@, p);
                        } else {
                            assert(after[p + 1] == k);
                            lemma_zipped_at(after, self.values@, p + 1);
                        }
                    }
                    assert(self@ =~= old(self)@.insert(key, value));
                }
            },
        }
    }

    /// The keys are listed once each, in increasing order.
    pub proof fn lemma_listed(&self)
        requires
            self.well_formed(),
        ensures
            increasing(self.listed()),
            self.listed() == ordered(self@.dom()),
            forall|k: [u8; N]| #[trigger] self@.contains_key(k) <==> self.listed().contains(k),
    {
        lemma_ordered(self.keys@);
        assert(self.keys@.to_set() =~= self@.dom());
    }
}

} // verus!
