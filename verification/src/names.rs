//! Ordered collections keyed by name: a set of names and a map from names to
//! values, both kept in ascending order so that walking them is deterministic.

use crate::text::{
    chars_eq, chars_lt, chars_of, lemma_lt_irreflexive, lemma_lt_total, lemma_lt_transitive, seq_lt,
};
use vstd::prelude::*;

verus! {

/// The character sequences of a list of strings, in order.
pub open spec fn views(keys: Seq<String>) -> Seq<Seq<char>> {
    Seq::new(keys.len(), |i: int| keys[i]@)
}

/// Strictly ascending: every name is smaller than each one after it.
pub open spec fn ascending(names: Seq<Seq<char>>) -> bool {
    forall|i: int, j: int| 0 <= i < j < names.len() ==> seq_lt(#[trigger] names[i], #[trigger] names[j])
}

/// The position of `k` in `names`, where it occurs.
pub open spec fn index_of(names: Seq<Seq<char>>, k: Seq<char>) -> int {
    choose|i: int| 0 <= i < names.len() && names[i] == k
}

/// An ascending list holds no name twice, so a name's position is the only one.
pub proof fn lemma_index_unique(names: Seq<Seq<char>>, i: int)
    requires
        ascending(names),
        0 <= i < names.len(),
    ensures
        names.contains(names[i]),
        index_of(names, names[i]) == i,
{
    let j = index_of(names, names[i]);
    lemma_lt_irreflexive(names[i]);
    if j < i {
        assert(seq_lt(names[j], names[i]));
    } else if i < j {
        assert(seq_lt(names[i], names[j]));
    }
}

/// Two ascending lists with the same names are the same list.
pub proof fn lemma_ascending_unique(a: Seq<Seq<char>>, b: Seq<Seq<char>>)
    requires
        ascending(a),
        ascending(b),
        forall|k: Seq<char>| a.contains(k) <==> b.contains(k),
    ensures
        a == b,
    decreases a.len(),
{
    if a.len() == 0 {
        if b.len() > 0 {
            assert(b.contains(b[0]));
        }
        assert(a =~= b);
    } else if b.len() == 0 {
        assert(a.contains(a[0]));
    } else {
        // The smallest name of each list is its first.
        assert(a.contains(a[0]));
        assert(b.contains(b[0]));
        let ia = choose|i: int| 0 <= i < b.len() && b[i] == a[0];
        let ib = choose|i: int| 0 <= i < a.len() && a[i] == b[0];
        lemma_lt_irreflexive(a[0]);
        if a[0] != b[0] {
            assert(seq_lt(b[0], b[ia]));
            assert(seq_lt(a[0], a[ib]));
            lemma_lt_transitive(a[0], b[0], a[0]);
        }
        let ta = a.drop_first();
        let tb = b.drop_first();
        assert(ascending(ta)) by {
            assert forall|i: int, j: int| 0 <= i < j < ta.len() implies seq_lt(
                #[trigger] ta[i],
                #[trigger] ta[j],
            ) by {
                assert(seq_lt(a[i + 1], a[j + 1]));
            }
        }
        assert(ascending(tb)) by {
            assert forall|i: int, j: int| 0 <= i < j < tb.len() implies seq_lt(
                #[trigger] tb[i],
                #[trigger] tb[j],
            ) by {
                assert(seq_lt(b[i + 1], b[j + 1]));
            }
        }
        assert forall|k: Seq<char>| ta.contains(k) <==> tb.contains(k) by {
            if ta.contains(k) {
                let i = choose|i: int| 0 <= i < ta.len() && ta[i] == k;
                assert(a[i + 1] == k);
                assert(seq_lt(a[0], a[i + 1]));
                assert(a.contains(k));
                let j = choose|j: int| 0 <= j < b.len() && b[j] == k;
                assert(j != 0);
                assert(tb[j - 1] == k);
            }
            if tb.contains(k) {
                let i = choose|i: int| 0 <= i < tb.len() && tb[i] == k;
                assert(b[i + 1] == k);
                assert(seq_lt(b[0], b[i + 1]));
                assert(b.contains(k));
                let j = choose|j: int| 0 <= j < a.len() && a[j] == k;
                assert(j != 0);
                assert(ta[j - 1] == k);
            }
        }
        lemma_ascending_unique(ta, tb);
        assert(a =~= seq![a[0]] + ta);
        assert(b =~= seq![b[0]] + tb);
    }
}

/// Inserting a new name at the place that keeps the order: what the longer
/// list holds, and where each old name went.
pub proof fn lemma_insert_ascending(names: Seq<Seq<char>>, pos: int, k: Seq<char>)
    requires
        ascending(names),
        0 <= pos <= names.len(),
        forall|j: int| 0 <= j < pos ==> seq_lt(#[trigger] names[j], k),
        forall|j: int| pos <= j < names.len() ==> seq_lt(k, #[trigger] names[j]),
    ensures
        ascending(names.insert(pos, k)),
        !names.contains(k),
        forall|x: Seq<char>| names.insert(pos, k).contains(x) <==> (x == k || names.contains(x)),
        index_of(names.insert(pos, k), k) == pos,
        forall|x: Seq<char>|
            names.contains(x) ==> #[trigger] index_of(names.insert(pos, k), x) == (if index_of(names, x)
                < pos {
                index_of(names, x)
            } else {
                index_of(names, x) + 1
            }),
{
    let n = names.insert(pos, k);
    assert forall|i: int, j: int| 0 <= i < j < n.len() implies seq_lt(
        #[trigger] n[i],
        #[trigger] n[j],
    ) by {
        if i < pos && j == pos {
            assert(seq_lt(names[i], k));
        } else if i < pos && j > pos {
            assert(seq_lt(names[i], names[j - 1]));
        } else if i < pos {
            assert(seq_lt(names[i], names[j]));
        } else if i == pos {
            assert(seq_lt(k, names[j - 1]));
        } else {
            assert(seq_lt(names[i - 1], names[j - 1]));
        }
    }
    lemma_lt_irreflexive(k);
    if names.contains(k) {
        let i = choose|i: int| 0 <= i < names.len() && names[i] == k;
        if i < pos {
            assert(seq_lt(names[i], k));
        } else {
            assert(seq_lt(k, names[i]));
        }
    }
    assert forall|x: Seq<char>| n.contains(x) <==> (x == k || names.contains(x)) by {
        if n.contains(x) {
            let i = choose|i: int| 0 <= i < n.len() && n[i] == x;
            if i < pos {
                assert(names[i] == x);
            } else if i > pos {
                assert(names[i - 1] == x);
            }
        }
        if x == k {
            assert(n[pos] == x);
        }
        if names.contains(x) {
            let i = choose|i: int| 0 <= i < names.len() && names[i] == x;
            if i < pos {
                assert(n[i] == x);
            } else {
                assert(n[i + 1] == x);
            }
        }
    }
    assert(n[pos] == k);
    lemma_index_unique(n, pos);
    assert forall|x: Seq<char>| names.contains(x) implies #[trigger] index_of(n, x) == (if index_of(
        names,
        x,
    ) < pos {
        index_of(names, x)
    } else {
        index_of(names, x) + 1
    }) by {
        let i = index_of(names, x);
        if i < pos {
            assert(n[i] == x);
            lemma_index_unique(n, i);
        } else {
            assert(n[i + 1] == x);
            lemma_index_unique(n, i + 1);
        }
    }
}

/// Where `key` stands in an ascending list, or where it would go.
///
/// The flag says whether the name at the returned position is `key`; without
/// it the position is the one at which inserting `key` keeps the order.
pub fn locate(keys: &Vec<String>, key: &str) -> (r: (usize, bool))
    requires
        ascending(views(keys@)),
    ensures
        r.0 <= keys.len(),
        r.1 == views(keys@).contains(key@),
        r.1 ==> r.0 < keys.len() && keys[r.0 as int]@ == key@ && r.0 == index_of(views(keys@), key@),
        forall|j: int| 0 <= j < r.0 ==> seq_lt(#[trigger] views(keys@)[j], key@),
        !r.1 ==> forall|j: int| r.0 <= j < keys.len() ==> seq_lt(key@, #[trigger] views(keys@)[j]),
{
    let ghost names = views(keys@);
    let wanted = chars_of(key);
    let mut i: usize = 0;
    while i < keys.len()
        invariant
            i <= keys.len(),
            names == views(keys@),
            wanted@ == key@,
            ascending(names),
            forall|j: int| 0 <= j < i ==> seq_lt(#[trigger] names[j], key@),
        decreases keys.len() - i,
    {
        let here = chars_of(keys[i].as_str());
        assert(here@ == names[i as int]);
        if chars_lt(&here, &wanted) {
            i = i + 1;
        } else if chars_eq(&here, &wanted) {
            proof {
                lemma_index_unique(names, i as int);
            }
            return (i, true);
        } else {
            proof {
                lemma_lt_total(names[i as int], key@);
                lemma_lt_irreflexive(key@);
                assert forall|j: int| i <= j < keys.len() implies seq_lt(key@, #[trigger] names[j]) by {
                    if j > i {
                        assert(seq_lt(names[i as int], names[j]));
                        lemma_lt_transitive(key@, names[i as int], names[j]);
                    }
                }
                if names.contains(key@) {
                    let j = choose|j: int| 0 <= j < names.len() && names[j] == key@;
                    if j < i {
                        assert(seq_lt(names[j], key@));
                    } else {
                        assert(seq_lt(key@, names[j]));
                    }
                }
            }
            return (i, false);
        }
    }
    proof {
        lemma_lt_irreflexive(key@);
        if names.contains(key@) {
            let j = choose|j: int| 0 <= j < names.len() && names[j] == key@;
            assert(seq_lt(names[j], key@));
        }
    }
    (i, false)
}

/// A set of names, walked in ascending order.
#[derive(Debug, Clone)]
pub struct NameSet {
    names: Vec<String>,
}

impl View for NameSet {
    type V = Set<Seq<char>>;

    open spec fn view(&self) -> Set<Seq<char>> {
        self.listing().to_set()
    }
}

impl NameSet {
    /// The names in the order in which they are walked.
    pub closed spec fn listing(&self) -> Seq<Seq<char>> {
        views(self.names@)
    }

    /// The names stand in strictly ascending order.
    pub open spec fn wf(&self) -> bool {
        ascending(self.listing())
    }

    /// An empty set.
    pub fn new() -> (r: NameSet)
        ensures
            r.wf(),
            r.listing() == Seq::<Seq<char>>::empty(),
            r@ == Set::<Seq<char>>::empty(),
    {
        let r = NameSet { names: Vec::new() };
        assert(r.listing() =~= Seq::<Seq<char>>::empty());
        assert(r@ =~= Set::<Seq<char>>::empty());
        r
    }

    pub fn len(&self) -> (n: usize)
        ensures
            n == self.listing().len(),
    {
        self.names.len()
    }

    pub fn is_empty(&self) -> (b: bool)
        ensures
            b == (self.listing().len() == 0),
    {
        self.names.len() == 0
    }

    /// The name at position `i` of the listing.
    pub fn name(&self, i: usize) -> (r: &str)
        requires
            i < self.listing().len(),
        ensures
            r@ == self.listing()[i as int],
    {
        self.names[i].as_str()
    }

    /// Whether the set has `name`.
    pub fn contains(&self, name: &str) -> (b: bool)
        requires
            self.wf(),
        ensures
            b == self@.contains(name@),
    {
        let (_, found) = locate(&self.names, name);
        found
    }

    /// A set with the same names.
    pub fn duplicate(&self) -> (r: NameSet)
        ensures
            r.listing() == self.listing(),
    {
        let mut names: Vec<String> = Vec::new();
        let mut i: usize = 0;
        while i < self.names.len()
            invariant
                i <= self.names.len(),
                names.len() == i,
                forall|j: int| 0 <= j < i ==> names[j]@ == self.names[j]@,
            decreases self.names.len() - i,
        {
            names.push(self.names[i].clone());
            i = i + 1;
        }
        assert(views(names@) =~= views(self.names@));
        NameSet { names }
    }

    /// Adds `name`; says whether it was new.
    pub fn insert(&mut self, name: &str) -> (fresh: bool)
        requires
            old(self).wf(),
        ensures
            final(self).wf(),
            final(self)@ == old(self)@.insert(name@),
            fresh == !old(self)@.contains(name@),
            !fresh ==> final(self).listing() == old(self).listing(),
    {
        let (pos, found) = locate(&self.names, name);
        if found {
            assert(self@ =~= self@.insert(name@));
            return false;
        }
        let ghost before = views(self.names@);
        self.names.insert(pos, name.to_owned());
        proof {
            lemma_insert_ascending(before, pos as int, name@);
            assert(views(self.names@) =~= before.insert(pos as int, name@));
            assert(self@ =~= old(self)@.insert(name@));
        }
        true
    }
}

/// A map from names to values, walked in ascending order of the names.
#[derive(Debug, Clone)]
pub struct NameMap<V> {
    keys: Vec<String>,
    vals: Vec<V>,
}

impl<V> NameMap<V> {
    /// The names in the order in which they are walked.
    pub closed spec fn names(&self) -> Seq<Seq<char>> {
        views(self.keys@)
    }

    /// The values, each at the position of its name.
    pub closed spec fn values(&self) -> Seq<V> {
        self.vals@
    }

    /// The names ascend strictly, and each has its value.
    pub open spec fn wf(&self) -> bool {
        &&& ascending(self.names())
        &&& self.names().len() == self.values().len()
    }

    /// Whether `k` is one of the names.
    pub open spec fn has(&self, k: Seq<char>) -> bool {
        self.names().contains(k)
    }

    /// The value that stands under `k`, where `k` is one of the names.
    pub open spec fn value_of(&self, k: Seq<char>) -> V {
        self.values()[index_of(self.names(), k)]
    }

    /// An empty map.
    pub fn new() -> (r: NameMap<V>)
        ensures
            r.wf(),
            r.names() == Seq::<Seq<char>>::empty(),
            r.values() == Seq::<V>::empty(),
    {
        let r = NameMap { keys: Vec::new(), vals: Vec::new() };
        assert(r.names() =~= Seq::<Seq<char>>::empty());
        assert(r.values() =~= Seq::<V>::empty());
        r
    }

    pub fn len(&self) -> (n: usize)
        ensures
            n == self.names().len(),
    {
        self.keys.len()
    }

    pub fn is_empty(&self) -> (b: bool)
        ensures
            b == (self.names().len() == 0),
    {
        self.keys.len() == 0
    }

    /// The position of `key`, where the map has it.
    pub fn find(&self, key: &str) -> (r: Option<usize>)
        requires
            self.wf(),
        ensures
            r.is_some() == self.has(key@),
            r matches Some(i) ==> i < self.names().len() && i == index_of(self.names(), key@)
                && self.names()[i as int] == key@,
    {
        let (pos, found) = locate(&self.keys, key);
        if found {
            Some(pos)
        } else {
            None
        }
    }

    /// The name at position `i`.
    pub fn key(&self, i: usize) -> (r: &str)
        requires
            i < self.names().len(),
        ensures
            r@ == self.names()[i as int],
    {
        self.keys[i].as_str()
    }

    /// The value at position `i`.
    pub fn value(&self, i: usize) -> (r: &V)
        requires
            self.wf(),
            i < self.names().len(),
        ensures
            *r == self.values()[i as int],
    {
        &self.vals[i]
    }

    /// The value at position `i`, to be changed in place.
    pub fn value_mut(&mut self, i: usize) -> (r: &mut V)
        requires
            old(self).wf(),
            i < old(self).names().len(),
        ensures
            *r == old(self).values()[i as int],
            final(self).names() == old(self).names(),
            final(self).values() == old(self).values().update(i as int, *final(r)),
    {
        &mut self.vals[i]
    }

    /// Adds a name that the map does not have yet, with its value, and gives
    /// the position at which it now stands.
    pub fn insert_new(&mut self, key: &str, value: V) -> (pos: usize)
        requires
            old(self).wf(),
            !old(self).has(key@),
        ensures
            final(self).wf(),
            pos <= old(self).names().len(),
            final(self).names() == old(self).names().insert(pos as int, key@),
            final(self).values() == old(self).values().insert(pos as int, value),
            pos == index_of(final(self).names(), key@),
            forall|x: Seq<char>| final(self).has(x) <==> (x == key@ || old(self).has(x)),
            final(self).value_of(key@) == value,
            forall|x: Seq<char>| old(self).has(x) ==> #[trigger] final(self).value_of(x) == old(self).value_of(x),
    {
        let (pos, _) = locate(&self.keys, key);
        let ghost before = views(self.keys@);
        self.keys.insert(pos, key.to_owned());
        self.vals.insert(pos, value);
        proof {
            lemma_insert_ascending(before, pos as int, key@);
            assert(views(self.keys@) =~= before.insert(pos as int, key@));
            assert forall|x: Seq<char>| old(self).has(x) implies #[trigger] self.value_of(x) == old(
                self,
            ).value_of(x) by {
                let i = index_of(before, x);
                assert(index_of(self.names(), x) == if i < pos { i } else { i + 1 });
            }
        }
        pos
    }
}

/// A map in which the value at one position was replaced: the names stay, and
/// every other name keeps its value.
pub proof fn lemma_value_updated<V>(before: NameMap<V>, after: NameMap<V>, i: int)
    requires
        before.wf(),
        0 <= i < before.names().len(),
        after.names() == before.names(),
        after.values() == before.values().update(i, after.values()[i]),
    ensures
        after.wf(),
        forall|x: Seq<char>| after.has(x) == before.has(x),
        before.has(before.names()[i]),
        before.value_of(before.names()[i]) == before.values()[i],
        after.value_of(before.names()[i]) == after.values()[i],
        forall|x: Seq<char>|
            before.has(x) && x != before.names()[i] ==> #[trigger] after.value_of(x) == before.value_of(x),
{
    lemma_index_unique(before.names(), i);
    assert forall|x: Seq<char>| before.has(x) && x != before.names()[i] implies #[trigger] after.value_of(
        x,
    ) == before.value_of(x) by {
        let j = index_of(before.names(), x);
        assert(j != i);
    }
}

/// What the length of an ascending list says of the set of its names: the
/// list is empty where the set is, and has one name where the set has one.
pub proof fn lemma_listing_size(listing: Seq<Seq<char>>)
    requires
        ascending(listing),
    ensures
        listing.len() > 0 <==> exists|n: Seq<char>| listing.to_set().contains(n),
        listing.len() == 1 <==> exists|n: Seq<char>| listing.to_set() == set![n],
        listing.len() == 1 ==> listing.to_set() == set![listing[0]],
{
    if listing.len() > 0 {
        assert(listing.to_set().contains(listing[0]));
    }
    if listing.len() == 1 {
        assert(listing.to_set() =~= set![listing[0]]);
    }
    if exists|n: Seq<char>| listing.to_set() == set![n] {
        let n = choose|n: Seq<char>| listing.to_set() == set![n];
        assert(set![n].contains(n));
        assert(listing.contains(n));
        if listing.len() > 1 {
            assert(listing.to_set().contains(listing[0]));
            assert(listing.to_set().contains(listing[1]));
            assert(seq_lt(listing[0], listing[1]));
            lemma_lt_irreflexive(n);
        }
    }
}

/// Two maps in order that have the same names list them alike, and each
/// name's value stands at the name's position.
pub proof fn lemma_same_names<V, W>(a: NameMap<V>, b: NameMap<W>)
    requires
        a.wf(),
        b.wf(),
        forall|k: Seq<char>| a.has(k) == b.has(k),
    ensures
        a.names() == b.names(),
        forall|i: int|
            0 <= i < a.names().len() ==> a.has(#[trigger] a.names()[i]) && a.value_of(a.names()[i])
                == a.values()[i] && b.value_of(a.names()[i]) == b.values()[i],
{
    assert forall|k: Seq<char>| a.names().contains(k) <==> b.names().contains(k) by {
        assert(a.has(k) == b.has(k));
    }
    lemma_ascending_unique(a.names(), b.names());
    assert forall|i: int| 0 <= i < a.names().len() implies a.has(#[trigger] a.names()[i])
        && a.value_of(a.names()[i]) == a.values()[i] && b.value_of(a.names()[i]) == b.values()[i] by {
        lemma_index_unique(a.names(), i);
    }
}

/// The first position at or after `i` whose name is not smaller than `k`, or
/// the length of the list.
pub open spec fn place_of(names: Seq<Seq<char>>, k: Seq<char>, i: int) -> int
    decreases names.len() - i,
{
    if i < 0 || i >= names.len() {
        names.len() as int
    } else if seq_lt(names[i], k) {
        place_of(names, k, i + 1)
    } else {
        i
    }
}

proof fn lemma_place_of(names: Seq<Seq<char>>, k: Seq<char>, i: int)
    requires
        0 <= i <= names.len(),
    ensures
        i <= place_of(names, k, i) <= names.len(),
        forall|j: int| i <= j < place_of(names, k, i) ==> seq_lt(#[trigger] names[j], k),
        place_of(names, k, i) < names.len() ==> !seq_lt(names[place_of(names, k, i)], k),
    decreases names.len() - i,
{
    if i < names.len() && seq_lt(names[i], k) {
        lemma_place_of(names, k, i + 1);
    }
}

/// An ascending list with one more name is again an ascending list: every
/// set of names that is listed in order is still listed in order after a
/// name was added to it.
pub proof fn lemma_listing_with(names: Seq<Seq<char>>, k: Seq<char>) -> (r: Seq<Seq<char>>)
    requires
        ascending(names),
    ensures
        ascending(r),
        r.to_set() == names.to_set().insert(k),
{
    if names.contains(k) {
        assert(names.to_set() =~= names.to_set().insert(k));
        names
    } else {
        let pos = place_of(names, k, 0);
        lemma_place_of(names, k, 0);
        assert forall|j: int| 0 <= j < pos implies seq_lt(#[trigger] names[j], k) by {}
        assert forall|j: int| pos <= j < names.len() implies seq_lt(k, #[trigger] names[j]) by {
            assert(names.contains(names[j]));
            lemma_lt_total(names[pos], k);
            if j > pos {
                assert(seq_lt(names[pos], names[j]));
                lemma_lt_transitive(k, names[pos], names[j]);
            }
        }
        lemma_insert_ascending(names, pos, k);
        let r = names.insert(pos, k);
        assert(r.to_set() =~= names.to_set().insert(k));
        r
    }
}

} // verus!
