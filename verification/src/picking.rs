//! Choosing the items of a sequence by marks, in their order, and what such a
//! choice keeps of the sequence it was made from.

use vstd::prelude::*;

verus! {

/// The items of `s` whose mark is set, in the order in which they stand.
pub open spec fn picked<T>(s: Seq<T>, marks: Seq<bool>) -> Seq<T>
    decreases s.len(),
{
    if s.len() == 0 || marks.len() != s.len() {
        Seq::empty()
    } else if marks.last() {
        picked(s.drop_last(), marks.drop_last()).push(s.last())
    } else {
        picked(s.drop_last(), marks.drop_last())
    }
}

/// The marks of `marks`, each turned over.
pub open spec fn turned(marks: Seq<bool>) -> Seq<bool> {
    Seq::new(marks.len(), |i: int| !marks[i])
}

/// No two items of `s` have the same key.
pub open spec fn distinct_by<T, K>(s: Seq<T>, key: spec_fn(T) -> K) -> bool {
    forall|i: int, j: int| 0 <= i < j < s.len() ==> key(#[trigger] s[i]) != key(#[trigger] s[j])
}

/// Whether some item of `s` has the key `id`.
pub open spec fn has_key<T, K>(s: Seq<T>, key: spec_fn(T) -> K, id: K) -> bool {
    exists|i: int| 0 <= i < s.len() && key(#[trigger] s[i]) == id
}

/// How many items of `s` have the key `id`.
pub open spec fn count_key<T, K>(s: Seq<T>, key: spec_fn(T) -> K, id: K) -> nat
    decreases s.len(),
{
    if s.len() == 0 {
        0
    } else {
        count_key(s.drop_last(), key, id) + if key(s.last()) == id {
            1nat
        } else {
            0nat
        }
    }
}

/// The first item of `s` with the key `id`, if there is one.
pub open spec fn first_with_key<T, K>(s: Seq<T>, key: spec_fn(T) -> K, id: K) -> Option<T>
    decreases s.len(),
{
    if s.len() == 0 {
        None
    } else {
        match first_with_key(s.drop_last(), key, id) {
            Some(t) => Some(t),
            None => if key(s.last()) == id {
                Some(s.last())
            } else {
                None
            },
        }
    }
}

/// The first item with a key is an item with that key before which none
/// has it; there is none exactly if no item has the key.
pub proof fn lemma_first_with_key<T, K>(s: Seq<T>, key: spec_fn(T) -> K, id: K)
    ensures
        first_with_key(s, key, id) is None <==> !has_key(s, key, id),
        first_with_key(s, key, id) matches Some(t) ==> key(t) == id && exists|i: int|
            0 <= i < s.len() && #[trigger] s[i] == t && forall|j: int|
                0 <= j < i ==> key(#[trigger] s[j]) != id,
    decreases s.len(),
{
    if s.len() > 0 {
        let init = s.drop_last();
        lemma_first_with_key(init, key, id);
        if has_key(s, key, id) {
            let i = choose|i: int| 0 <= i < s.len() && key(#[trigger] s[i]) == id;
            if i < s.len() - 1 {
                assert(key(init[i]) == id);
            }
        }
        if has_key(init, key, id) {
            let i = choose|i: int| 0 <= i < init.len() && key(#[trigger] init[i]) == id;
            assert(key(s[i]) == id);
        }
        match first_with_key(init, key, id) {
            Some(t) => {
                let i = choose|i: int|
                    0 <= i < init.len() && #[trigger] init[i] == t && forall|j: int|
                        0 <= j < i ==> key(#[trigger] init[j]) != id;
                assert(s[i] == t);
                assert forall|j: int| 0 <= j < i implies key(#[trigger] s[j]) != id by {
                    assert(s[j] == init[j]);
                }
            },
            None => {
                if key(s.last()) == id {
                    let i = s.len() - 1;
                    assert(s[i] == s.last());
                    assert forall|j: int| 0 <= j < i implies key(#[trigger] s[j]) != id by {
                        assert(s[j] == init[j]);
                    }
                }
            },
        }
    }
}

/// Where the item at `i` has the key and none before it has, it is the first
/// with that key.
pub proof fn lemma_first_with_key_at<T, K>(s: Seq<T>, key: spec_fn(T) -> K, id: K, i: int)
    requires
        0 <= i < s.len(),
        key(s[i]) == id,
        forall|j: int| 0 <= j < i ==> key(#[trigger] s[j]) != id,
    ensures
        first_with_key(s, key, id) == Some(s[i]),
    decreases s.len(),
{
    let init = s.drop_last();
    if i == s.len() - 1 {
        lemma_first_with_key(init, key, id);
        if has_key(init, key, id) {
            let k = choose|k: int| 0 <= k < init.len() && key(#[trigger] init[k]) == id;
            assert(s[k] == init[k]);
        }
    } else {
        assert(init[i] == s[i]);
        assert forall|j: int| 0 <= j < i implies key(#[trigger] init[j]) != id by {
            assert(s[j] == init[j]);
        }
        lemma_first_with_key_at(init, key, id, i);
    }
}

/// The place of the first item of `s` with the key `id`; the length of `s`
/// where no item has the key.
pub open spec fn place_of_key<T, K>(s: Seq<T>, key: spec_fn(T) -> K, id: K) -> int
    decreases s.len(),
{
    if s.len() == 0 {
        0
    } else {
        let before = place_of_key(s.drop_last(), key, id);
        if before < s.len() - 1 {
            before
        } else if key(s.last()) == id {
            s.len() - 1
        } else {
            s.len() as int
        }
    }
}

/// The place of the first item with a key is within the sequence exactly if
/// some item has the key; it is then the place of the first such item.
pub proof fn lemma_place_of_key<T, K>(s: Seq<T>, key: spec_fn(T) -> K, id: K)
    ensures
        0 <= place_of_key(s, key, id) <= s.len(),
        place_of_key(s, key, id) < s.len() ==> key(s[place_of_key(s, key, id)]) == id
            && first_with_key(s, key, id) == Some(s[place_of_key(s, key, id)]),
        place_of_key(s, key, id) == s.len() ==> first_with_key(s, key, id) is None,
        forall|j: int| 0 <= j < place_of_key(s, key, id) ==> key(#[trigger] s[j]) != id,
    decreases s.len(),
{
    if s.len() > 0 {
        let init = s.drop_last();
        lemma_place_of_key(init, key, id);
        let before = place_of_key(init, key, id);
        assert forall|j: int| 0 <= j < place_of_key(s, key, id) implies key(#[trigger] s[j])
            != id by {
            if j < init.len() {
                assert(s[j] == init[j]);
            }
        }
        if before < init.len() {
            assert(s[before] == init[before]);
        }
    }
}

/// Where the item at `i` has the key and none before it has, `i` is the
/// place of the first item with that key.
pub proof fn lemma_place_of_key_at<T, K>(s: Seq<T>, key: spec_fn(T) -> K, id: K, i: int)
    requires
        0 <= i <= s.len(),
        i < s.len() ==> key(s[i]) == id,
        forall|j: int| 0 <= j < i ==> key(#[trigger] s[j]) != id,
    ensures
        place_of_key(s, key, id) == i,
{
    lemma_place_of_key(s, key, id);
    let p = place_of_key(s, key, id);
    if p < i {
        assert(key(s[p]) != id);
    }
}

/// The place of the first of the marked items whose key is the least; none
/// where no item is marked.
pub open spec fn first_least(keys: Seq<int>, marks: Seq<bool>) -> Option<int>
    decreases keys.len(),
{
    if keys.len() == 0 || marks.len() != keys.len() {
        None
    } else {
        let before = first_least(keys.drop_last(), marks.drop_last());
        if !marks.last() {
            before
        } else {
            match before {
                None => Some(keys.len() - 1),
                Some(b) => if keys.last() < keys[b] {
                    Some(keys.len() - 1)
                } else {
                    Some(b)
                },
            }
        }
    }
}

/// What the first least is: a marked item that no marked item undercuts and
/// that every marked item before it exceeds; there is one exactly if some
/// item is marked.
pub proof fn lemma_first_least(keys: Seq<int>, marks: Seq<bool>)
    requires
        marks.len() == keys.len(),
    ensures
        first_least(keys, marks) is None <==> forall|j: int|
            0 <= j < keys.len() ==> !#[trigger] marks[j],
        first_least(keys, marks) matches Some(b) ==> 0 <= b < keys.len() && marks[b] && (forall|
            j: int,
        |
            0 <= j < keys.len() && #[trigger] marks[j] ==> keys[b] <= keys[j]) && (forall|j: int|
            0 <= j < b && #[trigger] marks[j] ==> keys[b] < keys[j]),
    decreases keys.len(),
{
    if keys.len() > 0 {
        let ik = keys.drop_last();
        let im = marks.drop_last();
        lemma_first_least(ik, im);
        assert forall|j: int| 0 <= j < ik.len() implies im[j] == marks[j] && ik[j] == keys[j] by {}
        match first_least(keys, marks) {
            None => {
                assert forall|j: int| 0 <= j < keys.len() implies !#[trigger] marks[j] by {
                    if j < ik.len() {
                        assert(!im[j]);
                    }
                }
            },
            Some(b) => {
                assert forall|j: int| 0 <= j < keys.len() && #[trigger] marks[j] implies keys[b]
                    <= keys[j] by {
                    if j < ik.len() {
                        assert(im[j]);
                    }
                }
                assert forall|j: int| 0 <= j < b && #[trigger] marks[j] implies keys[b]
                    < keys[j] by {
                    if j < ik.len() {
                        assert(im[j]);
                    }
                }
                if first_least(ik, im) is None {
                    assert forall|j: int| 0 <= j < ik.len() implies !#[trigger] im[j] by {}
                }
            },
        }
    }
}

/// Picking from one item more either adds that item or changes nothing.
pub proof fn lemma_picked_step<T>(s: Seq<T>, marks: Seq<bool>, i: int)
    requires
        0 <= i < s.len(),
        marks.len() == s.len(),
    ensures
        picked(s.take(i + 1), marks.take(i + 1)) == if marks[i] {
            picked(s.take(i), marks.take(i)).push(s[i])
        } else {
            picked(s.take(i), marks.take(i))
        },
{
    assert(s.take(i + 1).drop_last() =~= s.take(i));
    assert(marks.take(i + 1).drop_last() =~= marks.take(i));
}

/// Every picked item stands in the sequence, with its mark set.
pub proof fn lemma_picked_from<T>(s: Seq<T>, marks: Seq<bool>, j: int) -> (k: int)
    requires
        marks.len() == s.len(),
        0 <= j < picked(s, marks).len(),
    ensures
        0 <= k < s.len(),
        marks[k],
        picked(s, marks)[j] == s[k],
    decreases s.len(),
{
    let rest = picked(s.drop_last(), marks.drop_last());
    if marks.last() && j == rest.len() {
        s.len() - 1
    } else {
        lemma_picked_from(s.drop_last(), marks.drop_last(), j)
    }
}

/// Every item whose mark is set is picked.
pub proof fn lemma_picked_has<T>(s: Seq<T>, marks: Seq<bool>, k: int) -> (j: int)
    requires
        marks.len() == s.len(),
        0 <= k < s.len(),
        marks[k],
    ensures
        0 <= j < picked(s, marks).len(),
        picked(s, marks)[j] == s[k],
    decreases s.len(),
{
    let rest = picked(s.drop_last(), marks.drop_last());
    if k == s.len() - 1 {
        rest.len() as int
    } else {
        lemma_picked_has(s.drop_last(), marks.drop_last(), k)
    }
}

/// Where no mark is set, nothing is picked.
pub proof fn lemma_picked_none<T>(s: Seq<T>, marks: Seq<bool>)
    requires
        forall|i: int| 0 <= i < marks.len() ==> !#[trigger] marks[i],
    ensures
        picked(s, marks) == Seq::<T>::empty(),
    decreases s.len(),
{
    if s.len() > 0 && marks.len() == s.len() {
        assert(!marks[marks.len() - 1]);
        assert forall|i: int| 0 <= i < marks.drop_last().len() implies !#[trigger] marks.drop_last()[i] by {
            assert(!marks[i]);
        }
        lemma_picked_none(s.drop_last(), marks.drop_last());
    }
}

/// A choice from items with distinct keys has distinct keys.
pub proof fn lemma_picked_distinct<T, K>(s: Seq<T>, marks: Seq<bool>, key: spec_fn(T) -> K)
    requires
        distinct_by(s, key),
    ensures
        distinct_by(picked(s, marks), key),
    decreases s.len(),
{
    if s.len() > 0 && marks.len() == s.len() {
        let init = s.drop_last();
        let rest = picked(init, marks.drop_last());
        assert(distinct_by(init, key)) by {
            assert forall|i: int, j: int| 0 <= i < j < init.len() implies key(#[trigger] init[i])
                != key(#[trigger] init[j]) by {
                assert(init[i] == s[i] && init[j] == s[j]);
            }
        }
        lemma_picked_distinct(init, marks.drop_last(), key);
        if marks.last() {
            let out = picked(s, marks);
            assert forall|i: int, j: int| 0 <= i < j < out.len() implies key(#[trigger] out[i])
                != key(#[trigger] out[j]) by {
                if j == rest.len() {
                    let k = lemma_picked_from(init, marks.drop_last(), i);
                    assert(out[i] == s[k]);
                    assert(out[j] == s[s.len() - 1]);
                } else {
                    assert(out[i] == rest[i] && out[j] == rest[j]);
                }
            }
        }
    }
}

/// A choice holds no more items of a key than what it was made from.
pub proof fn lemma_picked_count<T, K>(
    s: Seq<T>,
    marks: Seq<bool>,
    key: spec_fn(T) -> K,
    id: K,
)
    ensures
        count_key(picked(s, marks), key, id) <= count_key(s, key, id),
    decreases s.len(),
{
    if s.len() > 0 && marks.len() == s.len() {
        lemma_picked_count(s.drop_last(), marks.drop_last(), key, id);
        if marks.last() {
            let out = picked(s, marks);
            assert(out.drop_last() =~= picked(s.drop_last(), marks.drop_last()));
        }
    }
}

} // verus!
