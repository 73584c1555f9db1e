//! Sorting by numbers and texts.

use vstd::prelude::*;

verus! {

/// Whether a text comes before another: at the first character in which they differ, or by
/// being the beginning of the other.
pub open spec fn comes_before(a: Seq<char>, b: Seq<char>) -> bool
    decreases a.len(),
{
    if b.len() == 0 {
        false
    } else if a.len() == 0 {
        true
    } else if a[0] != b[0] {
        a[0] < b[0]
    } else {
        comes_before(a.drop_first(), b.drop_first())
    }
}

/// The order of texts is total: of two texts that differ, exactly one comes first.
pub proof fn texts_are_ordered(a: Seq<char>, b: Seq<char>)
    ensures
        !(comes_before(a, b) && comes_before(b, a)),
        comes_before(a, b) || comes_before(b, a) || a == b,
    decreases a.len(),
{
    if a.len() > 0 && b.len() > 0 {
        texts_are_ordered(a.drop_first(), b.drop_first());
        if a[0] == b[0] && a.drop_first() == b.drop_first() {
            assert(a =~= seq![a[0]] + a.drop_first());
            assert(b =~= seq![b[0]] + b.drop_first());
        }
    } else if a.len() == 0 && b.len() == 0 {
        assert(a =~= b);
    }
}

/// What comes before something comes before what that comes before.
pub proof fn order_carries_over(a: Seq<char>, b: Seq<char>, c: Seq<char>)
    requires
        comes_before(a, b),
        comes_before(b, c),
    ensures
        comes_before(a, c),
    decreases a.len(),
{
    if a.len() > 0 && a[0] == b[0] && b[0] == c[0] {
        order_carries_over(a.drop_first(), b.drop_first(), c.drop_first());
    }
}

/// Whether a text comes before another.
pub fn is_before(a: &[char], b: &[char]) -> (r: bool)
    ensures
        r == comes_before(a@, b@),
{
    let mut i: usize = 0;
    assert(a@.skip(0) =~= a@ && b@.skip(0) =~= b@);
    while i < a.len() && i < b.len() && a[i] == b[i]
        invariant
            i <= a.len(),
            i <= b.len(),
            comes_before(a@, b@) == comes_before(a@.skip(i as int), b@.skip(i as int)),
        decreases a.len() - i,
    {
        assert(a@.skip(i as int).drop_first() =~= a@.skip(i + 1));
        assert(b@.skip(i as int).drop_first() =~= b@.skip(i + 1));
        i = i + 1;
    }
    if i >= b.len() {
        false
    } else if i >= a.len() {
        true
    } else {
        a[i] < b[i]
    }
}

/// What something is sorted by: three numbers, and then a text.
#[derive(Debug)]
pub struct SortKey {
    pub first: i64,
    pub second: i64,
    pub third: i64,
    pub name: Vec<char>,
}

/// A key by its values.
pub ghost struct KeyView {
    pub first: int,
    pub second: int,
    pub third: int,
    pub name: Seq<char>,
}

impl View for SortKey {
    type V = KeyView;

    open spec fn view(&self) -> KeyView {
        KeyView {
            first: self.first as int,
            second: self.second as int,
            third: self.third as int,
            name: self.name@,
        }
    }
}

/// Keys by their values.
pub open spec fn key_views(keys: Seq<SortKey>) -> Seq<KeyView> {
    Seq::new(keys.len(), |i: int| keys[i]@)
}

/// The key that is a text alone.
pub open spec fn name_key(name: Seq<char>) -> KeyView {
    KeyView { first: 0, second: 0, third: 0, name }
}

/// Whether a key comes before another: at the first part in which they differ.
pub open spec fn key_before(a: KeyView, b: KeyView) -> bool {
    if a.first != b.first {
        a.first < b.first
    } else if a.second != b.second {
        a.second < b.second
    } else if a.third != b.third {
        a.third < b.third
    } else {
        comes_before(a.name, b.name)
    }
}

proof fn lemma_keys_are_ordered(a: KeyView, b: KeyView)
    ensures
        !(key_before(a, b) && key_before(b, a)),
        key_before(a, b) || key_before(b, a) || a == b,
{
    texts_are_ordered(a.name, b.name);
}

proof fn lemma_key_order_carries_over(a: KeyView, b: KeyView, c: KeyView)
    requires
        key_before(a, b),
        key_before(b, c),
    ensures
        key_before(a, c),
{
    if comes_before(a.name, b.name) && comes_before(b.name, c.name) {
        order_carries_over(a.name, b.name, c.name);
    }
}

fn is_key_before(a: &SortKey, b: &SortKey) -> (r: bool)
    ensures
        r == key_before(a@, b@),
{
    if a.first != b.first {
        a.first < b.first
    } else if a.second != b.second {
        a.second < b.second
    } else if a.third != b.third {
        a.third < b.third
    } else {
        is_before(a.name.as_slice(), b.name.as_slice())
    }
}

/// Whether position `i` goes before position `j`: by its key, or, with the same key, by
/// being the smaller.
pub open spec fn goes_first(keys: Seq<KeyView>, i: int, j: int) -> bool {
    key_before(keys[i], keys[j]) || (keys[i] == keys[j] && i < j)
}

/// Whether positions are in the order of their keys.
pub open spec fn in_order(keys: Seq<KeyView>, order: Seq<usize>) -> bool {
    forall|a: int, b: int|
        0 <= a < b < order.len() ==> goes_first(
            keys,
            #[trigger] order[a] as int,
            #[trigger] order[b] as int,
        )
}

/// Whether positions are all those below `n`, each once.
pub open spec fn is_arrangement(order: Seq<usize>, n: int) -> bool {
    &&& order.len() == n
    &&& order.no_duplicates()
    &&& forall|a: int| 0 <= a < order.len() ==> (#[trigger] order[a]) < n
}

proof fn lemma_goes_first_carries_over(keys: Seq<KeyView>, i: int, j: int, k: int)
    requires
        goes_first(keys, i, j),
        goes_first(keys, j, k),
    ensures
        goes_first(keys, i, k),
{
    if key_before(keys[i], keys[j]) && key_before(keys[j], keys[k]) {
        lemma_key_order_carries_over(keys[i], keys[j], keys[k]);
    }
}

/// The positions of keys in the order of the keys; equal keys keep their order.
pub fn sorted_positions(keys: &[SortKey]) -> (r: Vec<usize>)
    ensures
        is_arrangement(r@, keys@.len() as int),
        in_order(key_views(keys@), r@),
{
    let ghost views = key_views(keys@);
    let mut order: Vec<usize> = Vec::new();
    let mut i: usize = 0;
    while i < keys.len()
        invariant
            i <= keys.len(),
            views == key_views(keys@),
            is_arrangement(order@, i as int),
            in_order(views, order@),
        decreases keys.len() - i,
    {
        let mut at: usize = order.len();
        while at > 0 && is_key_before(&keys[i], &keys[order[at - 1]])
            invariant
                at <= order.len(),
                i < keys.len(),
                views == key_views(keys@),
                is_arrangement(order@, i as int),
                forall|b: int|
                    at <= b < order@.len() ==> key_before(
                        views[i as int],
                        views[#[trigger] order@[b] as int],
                    ),
            decreases at,
        {
            assert(views[i as int] == keys@[i as int]@);
            assert(views[order@[at - 1] as int] == keys@[order@[at - 1] as int]@);
            at = at - 1;
        }
        let ghost before = order@;
        proof {
            assert(views[i as int] == keys@[i as int]@);
            if at > 0 {
                let k = before[at - 1] as int;
                assert(views[k] == keys@[k]@);
                lemma_keys_are_ordered(views[i as int], views[k]);
                assert(goes_first(views, k, i as int));
            }
        }
        order.insert(at, i);
        proof {
            assert forall|a: int, b: int| 0 <= a < b < order@.len() implies goes_first(
                views,
                #[trigger] order@[a] as int,
                #[trigger] order@[b] as int,
            ) by {
                let x = if a < at {
                    before[a] as int
                } else if a == at {
                    i as int
                } else {
                    before[a - 1] as int
                };
                let y = if b < at {
                    before[b] as int
                } else if b == at {
                    i as int
                } else {
                    before[b - 1] as int
                };
                assert(order@[a] == x && order@[b] == y);
                if b == at {
                    let k = before[at - 1] as int;
                    if a < at - 1 {
                        assert(goes_first(views, x, k));
                        lemma_goes_first_carries_over(views, x, k, i as int);
                    }
                } else if a == at {
                    assert(key_before(views[i as int], views[before[b - 1] as int]));
                }
            }
            assert forall|a: int, b: int|
                0 <= a < order@.len() && 0 <= b < order@.len() && a != b implies order@[a]
                != order@[b] by {
                if a < b {
                    assert(goes_first(views, order@[a] as int, order@[b] as int));
                    lemma_keys_are_ordered(views[order@[a] as int], views[order@[b] as int]);
                } else {
                    assert(goes_first(views, order@[b] as int, order@[a] as int));
                    lemma_keys_are_ordered(views[order@[a] as int], views[order@[b] as int]);
                }
            }
            assert forall|a: int| 0 <= a < order@.len() implies (#[trigger] order@[a]) < i + 1 by {
                if a < at {
                    assert(order@[a] == before[a]);
                } else if a > at {
                    assert(order@[a] == before[a - 1]);
                }
            }
        }
        i = i + 1;
    }
    order
}

/// Positions below `n`, each once and `n` of them, leave none out.
pub proof fn arrangements_leave_nothing_out(order: Seq<usize>, n: int, k: usize)
    requires
        is_arrangement(order, n),
        k < n,
    ensures
        order.contains(k),
{
    let ints = order.map_values(|x: usize| x as int);
    assert(ints.no_duplicates()) by {
        assert forall|i: int, j: int| 0 <= i < ints.len() && 0 <= j < ints.len() && i != j implies
            ints[i] != ints[j] by {
            assert(order[i] != order[j]);
        }
    }
    ints.unique_seq_to_set();
    vstd::set_lib::lemma_int_range(0, n);
    let all = vstd::set_lib::set_int_range(0, n);
    let seen = ints.to_set();
    assert(seen.subset_of(all)) by {
        assert forall|x: int| seen.contains(x) implies all.contains(x) by {
            let i = ints.index_of(x);
            assert(order[i] < n);
        }
    }
    vstd::set_lib::lemma_len_subset(seen, all);
    vstd::set_lib::lemma_subset_equality(seen, all);
    assert(all.contains(k as int));
    let i = ints.index_of(k as int);
    assert(order[i] == k);
}

/// Of two texts the one comes first that has the smaller character where they first differ, or that
/// the other begins with.
pub proof fn texts_are_ordered_where_they_differ(a: Seq<char>, b: Seq<char>, i: int)
    requires
        0 <= i <= a.len(),
        i <= b.len(),
        forall|k: int| 0 <= k < i ==> a[k] == b[k],
    ensures
        i < a.len() && i < b.len() && a[i] < b[i] ==> comes_before(a, b) && !comes_before(b, a),
        i == a.len() && i < b.len() ==> comes_before(a, b) && !comes_before(b, a),
        i == a.len() && i == b.len() ==> !comes_before(a, b),
    decreases i,
{
    if i > 0 {
        assert(a[0] == b[0]);
        let x = a.drop_first();
        let y = b.drop_first();
        assert forall|k: int| 0 <= k < i - 1 implies x[k] == y[k] by {
            assert(x[k] == a[k + 1] && y[k] == b[k + 1]);
        }
        texts_are_ordered_where_they_differ(x, y, i - 1);
    }
}

/// Keys are ordered by their numbers, the first before the second and the second before the third,
/// and by their names where those are equal; of equal keys the one that stood first goes first.
pub proof fn keys_are_ordered_part_by_part(keys: Seq<KeyView>, i: int, j: int)
    ensures
        ({
            let a = keys[i];
            let b = keys[j];
            &&& a.first < b.first ==> goes_first(keys, i, j) && !goes_first(keys, j, i)
            &&& a.first == b.first && a.second < b.second ==> goes_first(keys, i, j)
                && !goes_first(keys, j, i)
            &&& a.first == b.first && a.second == b.second && a.third < b.third ==> goes_first(
                keys,
                i,
                j,
            ) && !goes_first(keys, j, i)
            &&& a.first == b.first && a.second == b.second && a.third == b.third && comes_before(
                a.name,
                b.name,
            ) ==> goes_first(keys, i, j) && !goes_first(keys, j, i)
            &&& a == b && i < j ==> goes_first(keys, i, j) && !goes_first(keys, j, i)
        }),
{
    texts_are_ordered(keys[i].name, keys[j].name);
    texts_are_ordered(keys[i].name, keys[i].name);
}

/// An arrangement by names puts a name before all names that come after it.
pub proof fn names_are_arranged_in_order(names: Seq<Seq<char>>, order: Seq<usize>, a: int, b: int)
    requires
        in_order(Seq::new(names.len(), |i: int| name_key(names[i])), order),
        forall|i: int| 0 <= i < order.len() ==> (#[trigger] order[i]) < names.len(),
        0 <= a < b < order.len(),
    ensures
        !comes_before(names[order[b] as int], names[order[a] as int]),
{
    let keys = Seq::new(names.len(), |i: int| name_key(names[i]));
    assert(goes_first(keys, order[a] as int, order[b] as int));
    texts_are_ordered(names[order[a] as int], names[order[b] as int]);
}

} // verus!
