//! Canonical ordering of admitted collections by an integer key.

use vstd::prelude::*;
use vstd::multiset::Multiset;

verus! {

broadcast use vstd::seq_lib::group_to_multiset_ensures;

/// A value ordered by a mathematical integer key.
pub trait Keyed {
    /// The canonical ordering key.
    spec fn spec_key(&self) -> int;

    /// Compares two keys.
    fn key_lt(&self, other: &Self) -> (less: bool)
        ensures
            less == (self.spec_key() < other.spec_key()),
    ;

    /// Tests two keys for equality.
    fn key_eq(&self, other: &Self) -> (equal: bool)
        ensures
            equal == (self.spec_key() == other.spec_key()),
    ;
}

/// Keys never decrease along the sequence.
pub open spec fn sorted_by_key<T: Keyed>(s: Seq<T>) -> bool {
    forall|i: int, j: int| 0 <= i < j < s.len() ==> s[i].spec_key() <= s[j].spec_key()
}

/// Keys strictly increase along the sequence.
pub open spec fn strictly_sorted_by_key<T: Keyed>(s: Seq<T>) -> bool {
    forall|i: int, j: int| 0 <= i < j < s.len() ==> s[i].spec_key() < s[j].spec_key()
}

/// Two distinct positions carry the same key.
pub open spec fn has_duplicate_key<T: Keyed>(s: Seq<T>) -> bool {
    exists|i: int, j: int| 0 <= i < s.len() && 0 <= j < s.len() && i != j && s[i].spec_key() == s[j].spec_key()
}

/// Some element of the sequence carries the key.
pub open spec fn has_key<T: Keyed>(s: Seq<T>, key: int) -> bool {
    exists|i: int| 0 <= i < s.len() && s[i].spec_key() == key
}

/// The key is carried by at least two positions.
pub open spec fn is_duplicated_key<T: Keyed>(s: Seq<T>, key: int) -> bool {
    exists|i: int, j: int| 0 <= i < s.len() && 0 <= j < s.len() && i != j && s[i].spec_key() == key && s[j].spec_key() == key
}

/// The key is the smallest key that occurs at least twice.
pub open spec fn is_least_duplicated_key<T: Keyed>(s: Seq<T>, key: int) -> bool {
    &&& is_duplicated_key(s, key)
    &&& forall|k: int| is_duplicated_key(s, k) ==> key <= k
}

/// Reorders values into non-decreasing key order, keeping exactly the same values.
pub fn sort_by_key<T: Keyed>(input: Vec<T>) -> (sorted: Vec<T>)
    ensures
        sorted_by_key(sorted@),
        sorted@.to_multiset() == input@.to_multiset(),
        sorted@.len() == input@.len(),
{
    let mut rest = input;
    let mut out: Vec<T> = Vec::new();
    while rest.len() > 0
        invariant
            sorted_by_key(out@),
            out@.to_multiset().add(rest@.to_multiset()) == input@.to_multiset(),
            out@.len() + rest@.len() == input@.len(),
        decreases rest@.len(),
    {
        let ghost before_rest = rest@;
        let ghost before_out = out@;
        let item = rest.pop().unwrap();
        assert(before_rest == rest@.push(item));
        let mut position: usize = 0;
        while position < out.len() && !item.key_lt(&out[position])
            invariant
                position <= out@.len(),
                out@ == before_out,
                forall|k: int| 0 <= k < position ==> out@[k].spec_key() <= item.spec_key(),
            decreases out@.len() - position,
        {
            position = position + 1;
        }
        out.insert(position, item);
        assert(out@ == before_out.insert(position as int, item));
        assert forall|i: int, j: int| 0 <= i < j < out@.len() implies out@[i].spec_key()
            <= out@[j].spec_key() by {
            if j < position {
            } else if j == position {
            } else if i < position {
                assert(out@[j] == before_out[j - 1]);
            } else if i == position {
                assert(out@[j] == before_out[j - 1]);
                assert(before_out[position as int].spec_key() > item.spec_key());
            } else {
                assert(out@[j] == before_out[j - 1]);
                assert(out@[i] == before_out[i - 1]);
            }
        }
        assert(out@.to_multiset() == before_out.to_multiset().insert(item));
        assert(before_rest.to_multiset() == rest@.to_multiset().insert(item));
        assert(out@.to_multiset().add(rest@.to_multiset()) =~= before_out.to_multiset().add(
            before_rest.to_multiset(),
        ));
    }
    assert(rest@.to_multiset() =~= Multiset::empty());
    assert(out@.to_multiset().add(rest@.to_multiset()) =~= out@.to_multiset());
    out
}

/// Finds the first adjacent pair of equal keys in a sorted sequence.
pub fn first_adjacent_duplicate<T: Keyed>(values: &Vec<T>) -> (found: Option<usize>)
    requires
        sorted_by_key(values@),
    ensures
        found is None <==> !has_duplicate_key(values@),
        found is None ==> strictly_sorted_by_key(values@),
        found matches Some(i) ==> i + 1 < values@.len() && values@[i as int].spec_key()
            == values@[i + 1].spec_key() && is_least_duplicated_key(
            values@,
            values@[i as int].spec_key(),
        ),
{
    let mut index: usize = 0;
    while index < values.len() && index + 1 < values.len()
        invariant
            index <= values@.len(),
            sorted_by_key(values@),
            forall|k: int| 0 <= k < index && k + 1 < values@.len() ==> #[trigger] values@[k].spec_key()
                < values@[k + 1].spec_key(),
        decreases values@.len() - index,
    {
        if values[index].key_eq(&values[index + 1]) {
            proof {
                let key = values@[index as int].spec_key();
                assert(is_duplicated_key(values@, key)) by {
                    assert(values@[index + 1].spec_key() == key);
                }
                assert forall|k: int| is_duplicated_key(values@, k) implies key <= k by {
                    let (i, j) = choose|i: int, j: int|
                        0 <= i < values@.len() && 0 <= j < values@.len() && i != j
                            && values@[i].spec_key() == k && values@[j].spec_key() == k;
                    lemma_strict_prefix(values@, index as int);
                    if k < key {
                        if i < j {
                            assert(i < index);
                        } else {
                            assert(j < index);
                        }
                    }
                }
                assert(has_duplicate_key(values@)) by {
                    assert(values@[index + 1].spec_key() == key);
                }
            }
            return Some(index);
        }
        index = index + 1;
    }
    proof {
        lemma_strict_prefix(values@, values@.len() as int);
    }
    None
}

/// A sorted sequence whose first adjacent pairs up to `bound` are strict has
/// strictly increasing keys below `bound`.
proof fn lemma_strict_prefix<T: Keyed>(s: Seq<T>, bound: int)
    requires
        sorted_by_key(s),
        0 <= bound <= s.len(),
        forall|k: int| 0 <= k < bound && k + 1 < s.len() ==> #[trigger] s[k].spec_key() < s[k + 1].spec_key(),
    ensures
        forall|i: int, j: int| 0 <= i < j < s.len() && i < bound ==> s[i].spec_key() < s[j].spec_key(),
        bound == s.len() ==> strictly_sorted_by_key(s),
        bound == s.len() ==> !has_duplicate_key(s),
{
    assert forall|i: int, j: int| 0 <= i < j < s.len() && i < bound implies s[i].spec_key()
        < s[j].spec_key() by {
        assert(s[i].spec_key() < s[i + 1].spec_key());
        assert(s[i + 1].spec_key() <= s[j].spec_key());
    }
    if bound == s.len() {
        assert forall|i: int, j: int|
            0 <= i < s.len() && 0 <= j < s.len() && i != j implies s[i].spec_key()
            != s[j].spec_key() by {
            if i < j {
            } else {
            }
        }
    }
}

/// Strictly sorted sequences holding the same values are identical.
pub proof fn lemma_strictly_sorted_unique<T: Keyed>(a: Seq<T>, b: Seq<T>)
    requires
        strictly_sorted_by_key(a),
        strictly_sorted_by_key(b),
        a.to_multiset() == b.to_multiset(),
    ensures
        a == b,
    decreases a.len(),
{
    broadcast use vstd::multiset::group_multiset_axioms;

    assert(a.len() == a.to_multiset().len());
    assert(b.len() == b.to_multiset().len());
    if a.len() == 0 {
        assert(a =~= b);
    } else {
        let x = a[0];
        let y = b[0];
        assert(a.to_multiset().count(x) > 0) by {
            assert(a.contains(x));
        }
        assert(b.contains(x));
        assert(b.to_multiset().count(y) > 0) by {
            assert(b.contains(y));
        }
        assert(a.contains(y));
        let ix = choose|i: int| 0 <= i < b.len() && b[i] == x;
        let iy = choose|i: int| 0 <= i < a.len() && a[i] == y;
        assert(ix == 0) by {
            if ix > 0 {
                assert(b[0].spec_key() < b[ix].spec_key());
                if iy > 0 {
                    assert(a[0].spec_key() < a[iy].spec_key());
                }
            }
        }
        assert(x == y);
        let a1 = a.remove(0);
        let b1 = b.remove(0);
        assert(a1.to_multiset() == a.to_multiset().remove(x));
        assert(b1.to_multiset() == b.to_multiset().remove(x));
        assert forall|i: int, j: int| 0 <= i < j < a1.len() implies a1[i].spec_key()
            < a1[j].spec_key() by {
            assert(a1[i] == a[i + 1] && a1[j] == a[j + 1]);
        }
        assert forall|i: int, j: int| 0 <= i < j < b1.len() implies b1[i].spec_key()
            < b1[j].spec_key() by {
            assert(b1[i] == b[i + 1] && b1[j] == b[j + 1]);
        }
        lemma_strictly_sorted_unique(a1, b1);
        assert(a =~= b) by {
            assert forall|i: int| 0 <= i < a.len() implies a[i] == b[i] by {
                if i > 0 {
                    assert(a[i] == a1[i - 1]);
                    assert(b[i] == b1[i - 1]);
                }
            }
        }
    }
}

/// Duplicate keys are a property of the multiset of values.
pub proof fn lemma_duplicate_key_multiset<T: Keyed>(a: Seq<T>, b: Seq<T>)
    requires
        a.to_multiset() == b.to_multiset(),
    ensures
        has_duplicate_key(a) == has_duplicate_key(b),
{
    if has_duplicate_key(a) {
        lemma_duplicate_key_multiset_one(a, b);
    }
    if has_duplicate_key(b) {
        lemma_duplicate_key_multiset_one(b, a);
    }
}

proof fn lemma_duplicate_key_multiset_one<T: Keyed>(a: Seq<T>, b: Seq<T>)
    requires
        a.to_multiset() == b.to_multiset(),
        has_duplicate_key(a),
    ensures
        has_duplicate_key(b),
{
    let (i, j) = choose|i: int, j: int|
        0 <= i < a.len() && 0 <= j < a.len() && i != j && a[i].spec_key() == a[j].spec_key();
    let k = a[i].spec_key();
    assert(is_duplicated_key(a, k));
    lemma_duplicated_key_multiset_one(a, b, k);
}

/// Whether a key occurs twice is a property of the multiset of values.
pub proof fn lemma_duplicated_key_multiset<T: Keyed>(a: Seq<T>, b: Seq<T>, key: int)
    requires
        a.to_multiset() == b.to_multiset(),
    ensures
        is_duplicated_key(a, key) == is_duplicated_key(b, key),
{
    if is_duplicated_key(a, key) {
        lemma_duplicated_key_multiset_one(a, b, key);
    }
    if is_duplicated_key(b, key) {
        lemma_duplicated_key_multiset_one(b, a, key);
    }
}

/// The smallest key carried by two positions.
pub open spec fn least_duplicated_key<T: Keyed>(s: Seq<T>) -> int {
    if exists|k: int| is_least_duplicated_key(s, k) {
        choose|k: int| is_least_duplicated_key(s, k)
    } else {
        0
    }
}

/// The least duplicated key is unique.
pub proof fn lemma_least_duplicated_key<T: Keyed>(s: Seq<T>, key: int)
    requires
        is_least_duplicated_key(s, key),
    ensures
        least_duplicated_key(s) == key,
{
    let k = least_duplicated_key(s);
    assert(is_least_duplicated_key(s, k));
}

/// Rearranging values does not change the least duplicated key.
pub proof fn lemma_least_duplicated_key_multiset<T: Keyed>(a: Seq<T>, b: Seq<T>)
    requires
        a.to_multiset() == b.to_multiset(),
    ensures
        least_duplicated_key(a) == least_duplicated_key(b),
{
    assert forall|k: int|
        #![trigger is_duplicated_key(a, k)]
        #![trigger is_duplicated_key(b, k)]
        is_duplicated_key(a, k) == is_duplicated_key(b, k) by {
        lemma_duplicated_key_multiset(a, b, k);
    }
    assert forall|k: int|
        #![trigger is_least_duplicated_key(a, k)]
        #![trigger is_least_duplicated_key(b, k)]
        is_least_duplicated_key(a, k) == is_least_duplicated_key(b, k) by {
        assert(is_duplicated_key(a, k) == is_duplicated_key(b, k));
    }
    if exists|k: int| is_least_duplicated_key(a, k) {
        let k = choose|k: int| is_least_duplicated_key(a, k);
        lemma_least_duplicated_key(a, k);
        lemma_least_duplicated_key(b, k);
    } else {
        assert(!exists|k: int| is_least_duplicated_key(b, k));
    }
}

/// Positions whose key lies below the bound.
pub closed spec fn count_below<T: Keyed>(s: Seq<T>, bound: int) -> nat
    decreases s.len(),
{
    if s.len() == 0 {
        0
    } else {
        count_below(s.drop_last(), bound) + if s.last().spec_key() < bound {
            1nat
        } else {
            0nat
        }
    }
}

/// Lowering the bound past a present key strictly lowers the count.
proof fn lemma_count_below_strict<T: Keyed>(s: Seq<T>, low: int, high: int, i: int)
    requires
        low < high,
        0 <= i < s.len(),
        s[i].spec_key() == low,
    ensures
        count_below(s, low) < count_below(s, high),
    decreases s.len(),
{
    let t = s.drop_last();
    if i < s.len() - 1 {
        assert(t[i] == s[i]);
        lemma_count_below_strict(t, low, high, i);
    } else {
        lemma_count_below_monotone(t, low, high);
    }
}

proof fn lemma_count_below_monotone<T: Keyed>(s: Seq<T>, low: int, high: int)
    requires
        low <= high,
    ensures
        count_below(s, low) <= count_below(s, high),
    decreases s.len(),
{
    if s.len() > 0 {
        lemma_count_below_monotone(s.drop_last(), low, high);
    }
}

/// Whenever some key occurs twice, a least such key exists.
pub proof fn lemma_least_duplicated_key_exists<T: Keyed>(s: Seq<T>, key: int)
    requires
        is_duplicated_key(s, key),
    ensures
        exists|k: int| is_least_duplicated_key(s, k),
    decreases count_below(s, key),
{
    if !is_least_duplicated_key(s, key) {
        let smaller = choose|k: int| is_duplicated_key(s, k) && !(key <= k);
        let (i, j) = choose|i: int, j: int|
            0 <= i < s.len() && 0 <= j < s.len() && i != j && s[i].spec_key() == smaller && s[j].spec_key() == smaller;
        lemma_count_below_strict(s, smaller, key, i);
        lemma_least_duplicated_key_exists(s, smaller);
    }
}

/// A duplicated key is the key of some value.
pub proof fn lemma_duplicated_key_member<T: Keyed>(s: Seq<T>, key: int)
    requires
        is_duplicated_key(s, key),
    ensures
        exists|i: int| 0 <= i < s.len() && s[i].spec_key() == key,
{
    let (i, j) = choose|i: int, j: int|
        0 <= i < s.len() && 0 <= j < s.len() && i != j && s[i].spec_key() == key && s[j].spec_key() == key;
    assert(0 <= i < s.len() && s[i].spec_key() == key);
}

proof fn lemma_duplicated_key_multiset_one<T: Keyed>(a: Seq<T>, b: Seq<T>, key: int)
    requires
        a.to_multiset() == b.to_multiset(),
        is_duplicated_key(a, key),
    ensures
        is_duplicated_key(b, key),
{
    broadcast use vstd::multiset::group_multiset_axioms;

    let (i, j) = choose|i: int, j: int|
        0 <= i < a.len() && 0 <= j < a.len() && i != j && a[i].spec_key() == key && a[j].spec_key() == key;
    if a[i] == a[j] {
        // the same value twice: its count in b is at least two
        let x = a[i];
        lemma_count_two(a, i, j);
        lemma_two_positions(b, x);
    } else {
        assert(a.contains(a[i]) && a.contains(a[j]));
        assert(a.to_multiset().count(a[i]) > 0);
        assert(a.to_multiset().count(a[j]) > 0);
        assert(b.contains(a[i]) && b.contains(a[j]));
        let p = choose|p: int| 0 <= p < b.len() && b[p] == a[i];
        let q = choose|q: int| 0 <= q < b.len() && b[q] == a[j];
        assert(p != q);
    }
}

proof fn lemma_count_two<T>(s: Seq<T>, i: int, j: int)
    requires
        0 <= i < s.len(),
        0 <= j < s.len(),
        i != j,
        s[i] == s[j],
    ensures
        s.to_multiset().count(s[i]) >= 2,
{
    broadcast use vstd::multiset::group_multiset_axioms;

    let x = s[i];
    let hi = if i < j { j } else { i };
    let lo = if i < j { i } else { j };
    let s1 = s.remove(hi);
    assert(s1.to_multiset() == s.to_multiset().remove(x));
    assert(s1[lo] == x);
    assert(s1.contains(x));
    assert(s1.to_multiset().count(x) > 0);
}

proof fn lemma_two_positions<T>(s: Seq<T>, x: T)
    requires
        s.to_multiset().count(x) >= 2,
    ensures
        exists|p: int, q: int| 0 <= p < s.len() && 0 <= q < s.len() && p != q && s[p] == x && s[q] == x,
{
    broadcast use vstd::multiset::group_multiset_axioms;

    assert(s.contains(x));
    let p = choose|p: int| 0 <= p < s.len() && s[p] == x;
    let s1 = s.remove(p);
    assert(s1.to_multiset() == s.to_multiset().remove(x));
    assert(s1.to_multiset().count(x) >= 1);
    assert(s1.contains(x));
    let q1 = choose|q: int| 0 <= q < s1.len() && s1[q] == x;
    let q = if q1 < p { q1 } else { q1 + 1 };
    assert(s[q] == x);
}


/// The unique strictly increasing arrangement of the values of `s`.
pub open spec fn canonical_order<T: Keyed>(s: Seq<T>) -> Seq<T> {
    choose|t: Seq<T>| strictly_sorted_by_key(t) && t.to_multiset() == s.to_multiset()
}

/// A strictly sorted rearrangement is the canonical arrangement.
pub proof fn lemma_canonical_order<T: Keyed>(s: Seq<T>, t: Seq<T>)
    requires
        strictly_sorted_by_key(t),
        t.to_multiset() == s.to_multiset(),
    ensures
        canonical_order(s) == t,
{
    let c = canonical_order(s);
    assert(strictly_sorted_by_key(c) && c.to_multiset() == s.to_multiset());
    lemma_strictly_sorted_unique(c, t);
}

/// Rearranging values does not change their canonical arrangement.
pub proof fn lemma_canonical_order_multiset<T: Keyed>(a: Seq<T>, b: Seq<T>)
    requires
        a.to_multiset() == b.to_multiset(),
    ensures
        canonical_order(a) == canonical_order(b),
{
    assert((|t: Seq<T>| strictly_sorted_by_key(t) && t.to_multiset() == a.to_multiset()) =~= (|
        t: Seq<T>,
    | strictly_sorted_by_key(t) && t.to_multiset() == b.to_multiset()));
}

/// Key membership is a property of the multiset of values.
pub proof fn lemma_has_key_multiset<T: Keyed>(a: Seq<T>, b: Seq<T>, key: int)
    requires
        a.to_multiset() == b.to_multiset(),
    ensures
        has_key(a, key) == has_key(b, key),
{
    if has_key(a, key) {
        let i = choose|i: int| 0 <= i < a.len() && a[i].spec_key() == key;
        lemma_member_moves(a, b, i);
    }
    if has_key(b, key) {
        let i = choose|i: int| 0 <= i < b.len() && b[i].spec_key() == key;
        lemma_member_moves(b, a, i);
    }
}

/// Every member of a sequence is a member of any rearrangement of it.
pub proof fn lemma_member_moves<T>(a: Seq<T>, b: Seq<T>, i: int)
    requires
        a.to_multiset() == b.to_multiset(),
        0 <= i < a.len(),
    ensures
        exists|j: int| 0 <= j < b.len() && b[j] == a[i],
{
    assert(a.contains(a[i]));
    assert(a.to_multiset().count(a[i]) > 0);
    assert(b.to_multiset().count(a[i]) > 0);
    assert(b.contains(a[i]));
}

/// Values whose ordering key fits a 64-bit word.
pub trait U64Keyed: Keyed {
    /// Returns the ordering key.
    fn key_u64(&self) -> (key: u64)
        ensures
            key as int == self.spec_key(),
    ;
}

/// Binary search for a key in a strictly sorted sequence.
pub fn find_key<T: U64Keyed>(values: &Vec<T>, probe: u64) -> (found: Option<usize>)
    requires
        strictly_sorted_by_key(values@),
    ensures
        found is None <==> !has_key(values@, probe as int),
        found matches Some(i) ==> i < values@.len() && values@[i as int].spec_key() == probe,
{
    let mut low: usize = 0;
    let mut high: usize = values.len();
    while low < high
        invariant
            low <= high <= values@.len(),
            strictly_sorted_by_key(values@),
            forall|k: int| 0 <= k < low ==> #[trigger] values@[k].spec_key() < probe,
            forall|k: int| high <= k < values@.len() ==> #[trigger] values@[k].spec_key() > probe,
        decreases high - low,
    {
        let middle = low + (high - low) / 2;
        let key = values[middle].key_u64();
        if key == probe {
            return Some(middle);
        } else if key < probe {
            low = middle + 1;
        } else {
            high = middle;
        }
    }
    assert forall|k: int| 0 <= k < values@.len() implies #[trigger] values@[k].spec_key() != probe by {
        if k < low {
        } else {
        }
    }
    None
}

/// Values that their key identifies completely.
pub trait KeyIdentifies: Keyed + Sized {
    /// Values with equal keys are equal.
    proof fn lemma_key_identifies(a: Self, b: Self)
        requires
            a.spec_key() == b.spec_key(),
        ensures
            a == b,
    ;
}

/// The same values occur in both sequences, however often.
pub open spec fn same_members<T>(a: Seq<T>, b: Seq<T>) -> bool {
    forall|x: T| a.contains(x) <==> b.contains(x)
}

/// The unique strictly increasing arrangement of the distinct values of `s`.
pub open spec fn canonical_set<T: Keyed>(s: Seq<T>) -> Seq<T> {
    if exists|t: Seq<T>| strictly_sorted_by_key(t) && same_members(t, s) {
        choose|t: Seq<T>| strictly_sorted_by_key(t) && same_members(t, s)
    } else {
        Seq::empty()
    }
}

/// Strictly sorted sequences of self-identifying values with the same members are identical.
pub proof fn lemma_strictly_sorted_members_unique<T: KeyIdentifies>(a: Seq<T>, b: Seq<T>)
    requires
        strictly_sorted_by_key(a),
        strictly_sorted_by_key(b),
        same_members(a, b),
    ensures
        a == b,
    decreases a.len() + b.len(),
{
    if a.len() == 0 {
        if b.len() > 0 {
            assert(b.contains(b[0]));
        }
        assert(a =~= b);
    } else if b.len() == 0 {
        assert(a.contains(a[0]));
    } else {
        assert(a.contains(a[0]));
        assert(b.contains(b[0]));
        let i = choose|i: int| 0 <= i < b.len() && b[i] == a[0];
        let j = choose|j: int| 0 <= j < a.len() && a[j] == b[0];
        assert(a[0].spec_key() == b[0].spec_key()) by {
            if i > 0 {
                assert(b[0].spec_key() < b[i].spec_key());
                if j > 0 {
                    assert(a[0].spec_key() < a[j].spec_key());
                }
            }
            if j > 0 {
                assert(a[0].spec_key() < a[j].spec_key());
            }
        }
        T::lemma_key_identifies(a[0], b[0]);
        let ra = a.drop_first();
        let rb = b.drop_first();
        assert forall|x: T| ra.contains(x) <==> rb.contains(x) by {
            if ra.contains(x) {
                let k = choose|k: int| 0 <= k < ra.len() && ra[k] == x;
                assert(a[k + 1] == x);
                assert(a.contains(x));
                let m = choose|m: int| 0 <= m < b.len() && b[m] == x;
                if m == 0 {
                    assert(a[0].spec_key() < a[k + 1].spec_key());
                } else {
                    assert(rb[m - 1] == x);
                }
            }
            if rb.contains(x) {
                let k = choose|k: int| 0 <= k < rb.len() && rb[k] == x;
                assert(b[k + 1] == x);
                assert(b.contains(x));
                let m = choose|m: int| 0 <= m < a.len() && a[m] == x;
                if m == 0 {
                    assert(b[0].spec_key() < b[k + 1].spec_key());
                } else {
                    assert(ra[m - 1] == x);
                }
            }
        }
        assert forall|p: int, q: int| 0 <= p < q < ra.len() implies ra[p].spec_key() < ra[q].spec_key() by {
            assert(ra[p] == a[p + 1] && ra[q] == a[q + 1]);
        }
        assert forall|p: int, q: int| 0 <= p < q < rb.len() implies rb[p].spec_key() < rb[q].spec_key() by {
            assert(rb[p] == b[p + 1] && rb[q] == b[q + 1]);
        }
        lemma_strictly_sorted_members_unique(ra, rb);
        assert(a =~= b) by {
            assert forall|k: int| 0 <= k < a.len() implies a[k] == b[k] by {
                if k > 0 {
                    assert(a[k] == ra[k - 1] && b[k] == rb[k - 1]);
                }
            }
        }
    }
}

/// A strictly sorted sequence with the members of `s` is its canonical set.
pub proof fn lemma_canonical_set<T: KeyIdentifies>(s: Seq<T>, t: Seq<T>)
    requires
        strictly_sorted_by_key(t),
        same_members(t, s),
    ensures
        canonical_set(s) == t,
{
    let c = canonical_set(s);
    assert(strictly_sorted_by_key(c) && same_members(c, s));
    assert(same_members(c, t));
    lemma_strictly_sorted_members_unique(c, t);
}

/// Sequences with the same members have the same canonical set.
pub proof fn lemma_canonical_set_members<T: KeyIdentifies>(a: Seq<T>, b: Seq<T>)
    requires
        same_members(a, b),
    ensures
        canonical_set(a) == canonical_set(b),
{
    if exists|t: Seq<T>| strictly_sorted_by_key(t) && same_members(t, a) {
        let t = choose|t: Seq<T>| strictly_sorted_by_key(t) && same_members(t, a);
        assert(same_members(t, b));
        lemma_canonical_set(a, t);
        lemma_canonical_set(b, t);
    } else {
        assert forall|t: Seq<T>| !(strictly_sorted_by_key(t) && same_members(t, b)) by {
            if strictly_sorted_by_key(t) && same_members(t, b) {
                assert(same_members(t, a));
            }
        }
    }
}

/// Sorts by key and drops repeated values.
pub fn sort_dedup<T: KeyIdentifies + Copy>(input: Vec<T>) -> (output: Vec<T>)
    ensures
        strictly_sorted_by_key(output@),
        same_members(output@, input@),
        output@ == canonical_set(input@),
        output@.len() <= input@.len(),
{
    let ghost declared = input@;
    let sorted = sort_by_key(input);
    let mut output: Vec<T> = Vec::new();
    let mut index: usize = 0;
    while index < sorted.len()
        invariant
            index <= sorted@.len(),
            sorted_by_key(sorted@),
            strictly_sorted_by_key(output@),
            output@.len() <= index,
            index > 0 ==> output@.len() > 0 && output@.last().spec_key() == sorted@[index - 1].spec_key(),
            forall|x: T| output@.contains(x) <==> (exists|j: int| 0 <= j < index && sorted@[j] == x),
        decreases sorted@.len() - index,
    {
        let item = sorted[index];
        let ghost before = output@;
        if output.len() == 0 || !item.key_eq(&output[output.len() - 1]) {
            output.push(item);
            assert forall|p: int, q: int| 0 <= p < q < output@.len() implies output@[p].spec_key()
                < output@[q].spec_key() by {
                if q == output@.len() - 1 && p < q {
                    if index > 0 {
                        assert(sorted@[index - 1].spec_key() <= sorted@[index as int].spec_key());
                        assert(before[p].spec_key() <= before.last().spec_key());
                    }
                }
            }
            assert forall|x: T| output@.contains(x) <==> (exists|j: int| 0 <= j < index + 1 && sorted@[j] == x) by {
                if output@.contains(x) {
                    let k = choose|k: int| 0 <= k < output@.len() && output@[k] == x;
                    if k < before.len() {
                        assert(before.contains(x));
                    } else {
                        assert(sorted@[index as int] == x);
                    }
                }
                if exists|j: int| 0 <= j < index + 1 && sorted@[j] == x {
                    let j = choose|j: int| 0 <= j < index + 1 && sorted@[j] == x;
                    if j < index {
                        assert(before.contains(x));
                        let k = choose|k: int| 0 <= k < before.len() && before[k] == x;
                        assert(output@[k] == x);
                    } else {
                        assert(output@[output@.len() - 1] == x);
                    }
                }
            }
        } else {
            proof {
                T::lemma_key_identifies(item, before.last());
                assert forall|x: T| output@.contains(x) <==> (exists|j: int| 0 <= j < index + 1 && sorted@[j] == x) by {
                    if exists|j: int| 0 <= j < index + 1 && sorted@[j] == x {
                        let j = choose|j: int| 0 <= j < index + 1 && sorted@[j] == x;
                        if j == index {
                            assert(output@[output@.len() - 1] == x);
                        }
                    }
                }
            }
        }
        index = index + 1;
    }
    proof {
        assert forall|x: T| output@.contains(x) <==> declared.contains(x) by {
            if output@.contains(x) {
                let j = choose|j: int| 0 <= j < sorted@.len() && sorted@[j] == x;
                lemma_member_moves(sorted@, declared, j);
            }
            if declared.contains(x) {
                let j = choose|j: int| 0 <= j < declared.len() && declared[j] == x;
                lemma_member_moves(declared, sorted@, j);
                let k = choose|k: int| 0 <= k < sorted@.len() && sorted@[k] == declared[j];
                assert(sorted@[k] == x);
            }
        }
        assert(same_members(output@, declared));
        lemma_canonical_set(declared, output@);
    }
    output
}

} // verus!
