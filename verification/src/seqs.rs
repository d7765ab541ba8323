//! Facts about sequences.

use vstd::prelude::*;

verus! {

/// The place of the first item that a test picks.
pub open spec fn position<A>(items: Seq<A>, test: spec_fn(A) -> bool) -> Option<int>
    decreases items.len(),
{
    if items.len() == 0 {
        None
    } else {
        match position(items.drop_last(), test) {
            Some(i) => Some(i),
            None => if test(items.last()) {
                Some(items.len() - 1)
            } else {
                None
            },
        }
    }
}

/// The first item that a test picks.
pub open spec fn first<A>(items: Seq<A>, test: spec_fn(A) -> bool) -> Option<A> {
    match position(items, test) {
        Some(i) => Some(items[i]),
        None => None,
    }
}

/// The items, with the first that a test picks replaced by what becomes of it.
pub open spec fn update_first<A>(
    items: Seq<A>,
    test: spec_fn(A) -> bool,
    change: spec_fn(A) -> A,
) -> Seq<A> {
    match position(items, test) {
        Some(i) => items.update(i, change(items[i])),
        None => items,
    }
}

/// The place is that of the first item picked.
pub proof fn lemma_position<A>(items: Seq<A>, test: spec_fn(A) -> bool)
    ensures
        match position(items, test) {
            Some(i) => 0 <= i < items.len() && test(items[i]) && forall|j: int|
                0 <= j < i ==> !test(#[trigger] items[j]),
            None => forall|j: int| 0 <= j < items.len() ==> !test(#[trigger] items[j]),
        },
    decreases items.len(),
{
    if items.len() > 0 {
        let rest = items.drop_last();
        lemma_position(rest, test);
        assert(forall|j: int| 0 <= j < rest.len() ==> rest[j] == items[j]);
    }
}

/// There is one first place.
pub proof fn lemma_position_is<A>(items: Seq<A>, test: spec_fn(A) -> bool, i: int)
    requires
        0 <= i < items.len(),
        test(items[i]),
        forall|j: int| 0 <= j < i ==> !test(#[trigger] items[j]),
    ensures
        position(items, test) == Some(i),
{
    lemma_position(items, test);
}

/// Nothing is picked where no item passes.
pub proof fn lemma_position_none<A>(items: Seq<A>, test: spec_fn(A) -> bool)
    requires
        forall|j: int| 0 <= j < items.len() ==> !test(#[trigger] items[j]),
    ensures
        position(items, test) is None,
{
    lemma_position(items, test);
}

/// One more item that passes is one more item kept.
pub proof fn lemma_filter_take<A>(items: Seq<A>, test: spec_fn(A) -> bool, i: int)
    requires
        0 <= i < items.len(),
    ensures
        items.take(i + 1).filter(test) == if test(items[i]) {
            items.take(i).filter(test).push(items[i])
        } else {
            items.take(i).filter(test)
        },
{
    reveal(Seq::filter);
    assert(items.take(i + 1).drop_last() =~= items.take(i));
}

/// What becomes of the first item picked is found where that item was.
pub proof fn lemma_first_updated<A>(
    items: Seq<A>,
    test: spec_fn(A) -> bool,
    change: spec_fn(A) -> A,
)
    requires
        forall|item: A| #[trigger] test(item) ==> test(change(item)),
    ensures
        first(update_first(items, test, change), test) == match first(items, test) {
            Some(item) => Some(change(item)),
            None => None,
        },
{
    lemma_position(items, test);
    match position(items, test) {
        Some(i) => {
            let changed = update_first(items, test, change);
            assert(test(items[i]));
            assert forall|j: int| 0 <= j < i implies !test(#[trigger] changed[j]) by {
                assert(changed[j] == items[j]);
            }
            lemma_position_is(changed, test, i);
        },
        None => {},
    }
}

/// A search for other items finds what it found before.
pub proof fn lemma_first_beside<A>(
    items: Seq<A>,
    test: spec_fn(A) -> bool,
    change: spec_fn(A) -> A,
    other: spec_fn(A) -> bool,
)
    requires
        forall|item: A| #[trigger] test(item) ==> !other(item) && !other(change(item)),
    ensures
        first(update_first(items, test, change), other) == first(items, other),
{
    lemma_position(items, test);
    lemma_position(items, other);
    match position(items, test) {
        Some(i) => {
            let changed = update_first(items, test, change);
            assert(test(items[i]));
            match position(items, other) {
                Some(k) => {
                    assert forall|j: int| 0 <= j < k implies !other(#[trigger] changed[j]) by {
                        if j != i {
                            assert(changed[j] == items[j]);
                        }
                    }
                    lemma_position_is(changed, other, k);
                },
                None => {
                    assert forall|j: int| 0 <= j < changed.len() implies !other(
                        #[trigger] changed[j],
                    ) by {
                        if j != i {
                            assert(changed[j] == items[j]);
                        }
                    }
                    lemma_position_none(changed, other);
                },
            }
        },
        None => {},
    }
}

/// A search among items kept finds what it found among all, where it looks for
/// kept items only.
pub proof fn lemma_first_kept<A>(
    items: Seq<A>,
    keep: spec_fn(A) -> bool,
    test: spec_fn(A) -> bool,
)
    requires
        forall|item: A| #[trigger] test(item) ==> keep(item),
    ensures
        first(items.filter(keep), test) == first(items, test),
    decreases items.len(),
{
    reveal(Seq::filter);
    if items.len() > 0 {
        let rest = items.drop_last();
        lemma_first_kept(rest, keep, test);
        lemma_position(rest, test);
        lemma_position(rest.filter(keep), test);
        if keep(items.last()) {
            assert(items.filter(keep).drop_last() =~= rest.filter(keep));
        }
    }
}

/// A search for dropped items finds none.
pub proof fn lemma_first_dropped<A>(
    items: Seq<A>,
    keep: spec_fn(A) -> bool,
    test: spec_fn(A) -> bool,
)
    requires
        forall|item: A| #[trigger] test(item) ==> !keep(item),
    ensures
        first(items.filter(keep), test) is None,
{
    let kept = items.filter(keep);
    assert forall|j: int| 0 <= j < kept.len() implies !test(#[trigger] kept[j]) by {
        items.lemma_filter_pred(keep, j);
    }
    lemma_position_none(kept, test);
}

/// A search finds the item put last where it finds none before it.
pub proof fn lemma_first_pushed<A>(items: Seq<A>, item: A, test: spec_fn(A) -> bool)
    ensures
        first(items.push(item), test) == match first(items, test) {
            Some(earlier) => Some(earlier),
            None => if test(item) {
                Some(item)
            } else {
                None
            },
        },
{
    assert(items.push(item).drop_last() =~= items);
    lemma_position(items, test);
}

/// What an item becomes is among what the items become.
pub proof fn lemma_filter_map_has<A, B>(items: Seq<A>, f: spec_fn(A) -> Option<B>, i: int)
    requires
        0 <= i < items.len(),
        f(items[i]) is Some,
    ensures
        items.filter_map(f).contains(f(items[i])->0),
    decreases items.len(),
{
    let made = f(items[i])->0;
    let all = items.filter_map(f);
    let rest = items.drop_last();
    if i == items.len() - 1 {
        assert(all[all.len() - 1] == made);
    } else {
        lemma_filter_map_has(rest, f, i);
        let k = choose|k: int| 0 <= k < rest.filter_map(f).len() && rest.filter_map(f)[k] == made;
        assert(all[k] == made);
    }
}

/// Items that become nothing leave nothing.
pub proof fn lemma_filter_map_empty<A, B>(items: Seq<A>, f: spec_fn(A) -> Option<B>)
    requires
        forall|i: int| 0 <= i < items.len() ==> f(#[trigger] items[i]) is None,
    ensures
        items.filter_map(f).len() == 0,
    decreases items.len(),
{
    if items.len() > 0 {
        let rest = items.drop_last();
        assert forall|i: int| 0 <= i < rest.len() implies f(#[trigger] rest[i]) is None by {
            assert(rest[i] == items[i]);
        }
        lemma_filter_map_empty(rest, f);
        assert(f(items[items.len() - 1]) is None);
    }
}

/// What an item becomes is among what the items become.
pub proof fn lemma_flat_map_has<A, B>(items: Seq<A>, f: spec_fn(A) -> Seq<B>, i: int, j: int)
    requires
        0 <= i < items.len(),
        0 <= j < f(items[i]).len(),
    ensures
        items.flat_map(f).contains(f(items[i])[j]),
    decreases items.len(),
{
    let made = f(items[i])[j];
    let last = items.len() - 1;
    let rest = items.take(last);
    items.lemma_flat_map_take_append(f, last);
    assert(items.take(last + 1) =~= items);
    let all = items.flat_map(f);
    if i == last {
        assert(all[rest.flat_map(f).len() + j] == made);
    } else {
        assert(rest[i] == items[i]);
        lemma_flat_map_has(rest, f, i, j);
        let k = choose|k: int| 0 <= k < rest.flat_map(f).len() && rest.flat_map(f)[k] == made;
        assert(all[k] == made);
    }
}

/// What holds of all that each item becomes holds of all that the items become.
pub proof fn lemma_flat_map_all<A, B>(
    items: Seq<A>,
    f: spec_fn(A) -> Seq<B>,
    holds: spec_fn(B) -> bool,
)
    requires
        forall|i: int, j: int|
            0 <= i < items.len() && 0 <= j < f(items[i]).len() ==> holds(
                #[trigger] f(items[i])[j],
            ),
    ensures
        forall|k: int| 0 <= k < items.flat_map(f).len() ==> holds(#[trigger] items.flat_map(f)[k]),
    decreases items.len(),
{
    if items.len() == 0 {
        assert(items.flat_map(f).len() == 0);
    } else {
        let last = items.len() - 1;
        let rest = items.take(last);
        items.lemma_flat_map_take_append(f, last);
        assert(items.take(last + 1) =~= items);
        assert forall|i: int, j: int|
            0 <= i < rest.len() && 0 <= j < f(rest[i]).len() implies holds(
            #[trigger] f(rest[i])[j],
        ) by {
            assert(f(items[i])[j] == f(rest[i])[j]);
        }
        lemma_flat_map_all(rest, f, holds);
        let before = rest.flat_map(f);
        assert forall|k: int| 0 <= k < items.flat_map(f).len() implies holds(
            #[trigger] items.flat_map(f)[k],
        ) by {
            if k < before.len() {
                assert(items.flat_map(f)[k] == before[k]);
            } else {
                assert(items.flat_map(f)[k] == f(items[last])[k - before.len()]);
            }
        }
    }
}

/// What two lists in a row become is what each becomes, in a row.
pub proof fn lemma_filter_map_add<A, B>(a: Seq<A>, b: Seq<A>, f: spec_fn(A) -> Option<B>)
    ensures
        (a + b).filter_map(f) == a.filter_map(f) + b.filter_map(f),
    decreases b.len(),
{
    if b.len() == 0 {
        assert(a + b =~= a);
        assert(a.filter_map(f) + b.filter_map(f) =~= a.filter_map(f));
    } else {
        assert((a + b).drop_last() =~= a + b.drop_last());
        assert((a + b).last() == b.last());
        lemma_filter_map_add(a, b.drop_last(), f);
        assert((a + b).filter_map(f) =~= a.filter_map(f) + b.filter_map(f));
    }
}

/// A part of a list without duplicates has none.
pub proof fn lemma_filter_distinct<A, B>(
    items: Seq<A>,
    keep: spec_fn(A) -> bool,
    key: spec_fn(A) -> B,
)
    requires
        items.map_values(key).no_duplicates(),
    ensures
        items.filter(keep).map_values(key).no_duplicates(),
    decreases items.len(),
{
    reveal(Seq::filter);
    if items.len() > 0 {
        let rest = items.drop_last();
        let keys = items.map_values(key);
        assert(rest.map_values(key) =~= keys.drop_last());
        assert(rest.map_values(key).no_duplicates()) by {
            assert forall|i: int, j: int|
                0 <= i < rest.len() && 0 <= j < rest.len() && i != j implies rest.map_values(key)[i]
                != rest.map_values(key)[j] by {
                assert(keys[i] != keys[j]);
            }
        }
        lemma_filter_distinct(rest, keep, key);
        let kept = rest.filter(keep);
        if keep(items.last()) {
            let all = items.filter(keep).map_values(key);
            assert forall|i: int, j: int|
                0 <= i < all.len() && 0 <= j < all.len() && i != j implies all[i] != all[j] by {
                let last = kept.len() as int;
                if i == last || j == last {
                    let k = if i == last {
                        j
                    } else {
                        i
                    };
                    assert(kept.contains(kept[k]));
                    rest.lemma_filter_contains_rev(keep, kept[k]);
                    let n = choose|n: int| 0 <= n < rest.len() && rest[n] == kept[k];
                    assert(keys[n] != keys[items.len() - 1]);
                } else {
                    assert(kept.map_values(key)[i] != kept.map_values(key)[j]);
                }
            }
        }
    }
}

/// What two lists in a row become is what each becomes, in a row.
pub proof fn lemma_flat_map_add<A, B>(a: Seq<A>, b: Seq<A>, f: spec_fn(A) -> Seq<B>)
    ensures
        (a + b).flat_map(f) == a.flat_map(f) + b.flat_map(f),
    decreases b.len(),
{
    if b.len() == 0 {
        assert(a + b =~= a);
        assert(b.flat_map(f) =~= seq![]);
        assert(a.flat_map(f) + b.flat_map(f) =~= a.flat_map(f));
    } else {
        let last = b.len() - 1;
        let whole = a + b;
        lemma_flat_map_add(a, b.drop_last(), f);
        whole.lemma_flat_map_take_append(f, whole.len() - 1);
        b.lemma_flat_map_take_append(f, last);
        assert(whole.take(whole.len() - 1) =~= a + b.drop_last());
        assert(whole.take(whole.len() as int) =~= whole);
        assert(b.take(last) =~= b.drop_last());
        assert(b.take(last + 1) =~= b);
        assert(whole.flat_map(f) =~= a.flat_map(f) + b.flat_map(f));
    }
}

/// What one item becomes is all that a list of it becomes.
pub proof fn lemma_flat_map_one<A, B>(item: A, f: spec_fn(A) -> Seq<B>)
    ensures
        seq![item].flat_map(f) == f(item),
{
    let one = seq![item];
    one.lemma_flat_map_take_append(f, 0);
    assert(one.take(0).flat_map(f) =~= seq![]);
    assert(one.take(1) =~= one);
    assert(one.flat_map(f) =~= f(item));
}

/// What is picked of one item.
pub proof fn lemma_filter_map_one<A, B>(item: A, f: spec_fn(A) -> Option<B>)
    ensures
        seq![item].filter_map(f) == match f(item) {
            Some(made) => seq![made],
            None => seq![],
        },
{
    let one = seq![item];
    assert(one.drop_last().filter_map(f).len() == 0);
    assert(one.last() == item);
    assert(one.filter_map(f) =~= match f(item) {
        Some(made) => seq![made],
        None => seq![],
    });
}

/// Picking and then changing is picking what is changed.
pub proof fn lemma_filter_map_then_map<A, B, C>(
    items: Seq<A>,
    f: spec_fn(A) -> Option<B>,
    g: spec_fn(B) -> C,
    h: spec_fn(A) -> Option<C>,
)
    requires
        forall|item: A| #[trigger] h(item) == match f(item) {
            Some(made) => Some(g(made)),
            None => None,
        },
    ensures
        items.filter_map(h) == items.filter_map(f).map_values(g),
    decreases items.len(),
{
    if items.len() > 0 {
        lemma_filter_map_then_map(items.drop_last(), f, g, h);
        assert(h(items.last()) == match f(items.last()) {
            Some(made) => Some(g(made)),
            None => None,
        });
    }
    assert(items.filter_map(h) =~= items.filter_map(f).map_values(g));
}

/// Changing and then picking is picking by what is changed.
pub proof fn lemma_map_then_filter_map<A, B, C>(
    items: Seq<A>,
    g: spec_fn(A) -> B,
    f: spec_fn(B) -> Option<C>,
    h: spec_fn(A) -> Option<C>,
)
    requires
        forall|item: A| f(#[trigger] g(item)) == h(item),
    ensures
        items.map_values(g).filter_map(f) == items.filter_map(h),
    decreases items.len(),
{
    let made = items.map_values(g);
    if items.len() > 0 {
        lemma_map_then_filter_map(items.drop_last(), g, f, h);
        assert(made.drop_last() =~= items.drop_last().map_values(g));
        assert(made.last() == g(items.last()));
        assert(f(g(items.last())) == h(items.last()));
    }
    assert(made.filter_map(f) =~= items.filter_map(h));
}

/// Picking of what each item becomes is all that is picked.
pub proof fn lemma_flat_map_then_filter_map<A, B, C>(
    items: Seq<A>,
    f: spec_fn(A) -> Seq<B>,
    r: spec_fn(B) -> Option<C>,
    p: spec_fn(A) -> Seq<C>,
)
    requires
        forall|item: A| (#[trigger] f(item)).filter_map(r) == p(item),
    ensures
        items.flat_map(f).filter_map(r) == items.flat_map(p),
    decreases items.len(),
{
    if items.len() == 0 {
        assert(items.flat_map(f) =~= seq![]);
        assert(items.flat_map(p) =~= seq![]);
        assert(items.flat_map(f).filter_map(r) =~= seq![]);
    } else {
        let rest = items.drop_last();
        let last = items.last();
        assert(items =~= rest + seq![last]);
        lemma_flat_map_then_filter_map(rest, f, r, p);
        lemma_flat_map_add(rest, seq![last], f);
        lemma_flat_map_add(rest, seq![last], p);
        lemma_flat_map_one(last, f);
        lemma_flat_map_one(last, p);
        lemma_filter_map_add(rest.flat_map(f), f(last), r);
        assert(f(last).filter_map(r) == p(last));
    }
}

/// An item is changed where it is the first picked, and stays else.
pub proof fn lemma_update_first_at<A>(
    items: Seq<A>,
    test: spec_fn(A) -> bool,
    change: spec_fn(A) -> A,
    i: int,
)
    requires
        0 <= i < items.len(),
    ensures
        update_first(items, test, change).len() == items.len(),
        update_first(items, test, change)[i] == if test(items[i]) && (forall|j: int|
            0 <= j < i ==> !test(#[trigger] items[j])) {
            change(items[i])
        } else {
            items[i]
        },
{
    lemma_position(items, test);
    if test(items[i]) && (forall|j: int| 0 <= j < i ==> !test(#[trigger] items[j])) {
        lemma_position_is(items, test, i);
    }
}

/// Lists that are alike item for item, and of which the same items pass, are
/// alike in what is kept of them.
pub proof fn lemma_filter_alike<A>(
    a: Seq<A>,
    b: Seq<A>,
    test: spec_fn(A) -> bool,
    alike: spec_fn(A, A) -> bool,
)
    requires
        a.len() == b.len(),
        forall|i: int|
            0 <= i < a.len() ==> test(#[trigger] a[i]) == test(b[i]) && alike(a[i], b[i]),
    ensures
        a.filter(test).len() == b.filter(test).len(),
        forall|i: int|
            0 <= i < a.filter(test).len() ==> alike(#[trigger] a.filter(test)[i], b.filter(test)[i]),
    decreases a.len(),
{
    reveal(Seq::filter);
    if a.len() > 0 {
        let front = a.drop_last();
        let other = b.drop_last();
        assert forall|i: int| 0 <= i < front.len() implies test(#[trigger] front[i]) == test(
            other[i],
        ) && alike(front[i], other[i]) by {
            assert(front[i] == a[i] && other[i] == b[i]);
        }
        lemma_filter_alike(front, other, test, alike);
        let last = a.len() - 1;
        assert(test(a[last]) == test(b[last]) && alike(a[last], b[last]));
        assert forall|i: int| 0 <= i < a.filter(test).len() implies alike(
            #[trigger] a.filter(test)[i],
            b.filter(test)[i],
        ) by {
            if i < front.filter(test).len() {
                assert(a.filter(test)[i] == front.filter(test)[i]);
                assert(b.filter(test)[i] == other.filter(test)[i]);
            }
        }
    }
}

/// What is kept of a list with one more item.
pub proof fn lemma_filter_pushed<A>(items: Seq<A>, item: A, test: spec_fn(A) -> bool)
    ensures
        items.push(item).filter(test) == if test(item) {
            items.filter(test).push(item)
        } else {
            items.filter(test)
        },
{
    reveal(Seq::filter);
    assert(items.push(item).drop_last() =~= items);
}

} // verus!
