use crate::arena::{frames, preorder, preorder_from, well_formed};
use vstd::prelude::*;
use vstd::seq_lib::lemma_no_dup_in_concat;
use vstd::set_lib::{lemma_int_range, set_int_range};

verus! {

/// The call at place `child` was made by the call at place `parent`, as its
/// `k`-th call.
pub open spec fn is_child(arena: Seq<Seq<usize>>, parent: int, k: int, child: int) -> bool {
    &&& 0 <= parent < arena.len()
    &&& 0 <= k < arena[parent].len()
    &&& arena[parent][k] as int == child
}

/// The call at place `child` was made by some call of the arena.
pub open spec fn has_parent(arena: Seq<Seq<usize>>, child: int) -> bool {
    exists|parent: int, k: int| is_child(arena, parent, k, child)
}

/// The calls of the arena form one tree under the root: the arena is well
/// formed, and every call but the root was made by one call, once.
pub open spec fn is_tree(arena: Seq<Seq<usize>>) -> bool {
    &&& well_formed(arena)
    &&& forall|child: int| 1 <= child < arena.len() ==> #[trigger] has_parent(arena, child)
    &&& forall|i: int, k: int, j: int, l: int|
        0 <= i < arena.len() && 0 <= k < arena[i].len() && 0 <= j < arena.len() && 0 <= l
            < arena[j].len() && #[trigger] arena[i][k] == #[trigger] arena[j][l] ==> i == j && k
            == l
}

/// What is in a sequence put behind another is in one of the two.
proof fn lemma_contains_concat(a: Seq<usize>, b: Seq<usize>, x: usize)
    ensures
        (a + b).contains(x) <==> a.contains(x) || b.contains(x),
{
    if (a + b).contains(x) {
        let t = choose|t: int| 0 <= t < (a + b).len() && (a + b)[t] == x;
        if t < a.len() {
            assert(a[t] == x);
        } else {
            assert(b[t - a.len()] == x);
        }
    }
    if a.contains(x) {
        let t = choose|t: int| 0 <= t < a.len() && a[t] == x;
        assert((a + b)[t] == x);
    }
    if b.contains(x) {
        let t = choose|t: int| 0 <= t < b.len() && b[t] == x;
        assert((a + b)[a.len() + t] == x);
    }
}

/// The calls under a call start with it and stand behind it in the arena.
pub proof fn lemma_preorder_bounds(arena: Seq<Seq<usize>>, entry: int)
    requires
        well_formed(arena),
        0 <= entry < arena.len(),
        entry <= usize::MAX,
    ensures
        preorder(arena, entry).len() >= 1,
        preorder(arena, entry)[0] == entry,
        preorder(arena, entry).contains(entry as usize),
        forall|t: int|
            0 <= t < preorder(arena, entry).len() ==> entry <= #[trigger] preorder(arena, entry)[t]
                < arena.len(),
    decreases arena.len() - entry, 1int, 0int,
{
    lemma_from_bounds(arena, entry, 0);
    let head = seq![entry as usize];
    let rest = preorder_from(arena, entry, 0);
    assert(preorder(arena, entry) == head + rest);
    assert(preorder(arena, entry)[0] == entry);
    assert forall|t: int| 0 <= t < preorder(arena, entry).len() implies entry
        <= #[trigger] preorder(arena, entry)[t] < arena.len() by {
        if t >= 1 {
            assert(preorder(arena, entry)[t] == rest[t - 1]);
        }
    }
}

/// The calls under the children of a call stand behind it in the arena.
proof fn lemma_from_bounds(arena: Seq<Seq<usize>>, entry: int, k: int)
    requires
        well_formed(arena),
        0 <= entry < arena.len(),
        entry <= usize::MAX,
        0 <= k,
    ensures
        forall|t: int|
            0 <= t < preorder_from(arena, entry, k).len() ==> entry < #[trigger] preorder_from(
                arena,
                entry,
                k,
            )[t] < arena.len(),
    decreases arena.len() - entry, 0int, arena[entry].len() - k,
{
    if k < arena[entry].len() {
        let child = arena[entry][k] as int;
        assert(entry < arena[entry][k] < arena.len());
        lemma_preorder_bounds(arena, child);
        lemma_from_bounds(arena, entry, k + 1);
        let under = preorder(arena, child);
        let rest = preorder_from(arena, entry, k + 1);
        assert(preorder_from(arena, entry, k) == under + rest);
        assert forall|t: int| 0 <= t < preorder_from(arena, entry, k).len() implies entry
            < #[trigger] preorder_from(arena, entry, k)[t] < arena.len() by {
            if t < under.len() {
                assert(preorder_from(arena, entry, k)[t] == under[t]);
            } else {
                assert(preorder_from(arena, entry, k)[t] == rest[t - under.len()]);
            }
        }
    }
}

/// What stands under the `k`-th child stands under the children from any
/// earlier one on.
proof fn lemma_child_in_from(arena: Seq<Seq<usize>>, entry: int, from: int, k: int, x: usize)
    requires
        well_formed(arena),
        0 <= entry < arena.len(),
        entry <= usize::MAX,
        0 <= from <= k < arena[entry].len(),
        preorder(arena, arena[entry][k] as int).contains(x),
    ensures
        preorder_from(arena, entry, from).contains(x),
    decreases k - from,
{
    let child = arena[entry][from] as int;
    assert(entry < arena[entry][from] < arena.len());
    lemma_contains_concat(preorder(arena, child), preorder_from(arena, entry, from + 1), x);
    if from < k {
        lemma_child_in_from(arena, entry, from + 1, k, x);
    }
}

/// What stands under the children of a call stands under one of them.
proof fn lemma_from_in_child(arena: Seq<Seq<usize>>, entry: int, from: int, x: usize) -> (k: int)
    requires
        well_formed(arena),
        0 <= entry < arena.len(),
        entry <= usize::MAX,
        0 <= from,
        preorder_from(arena, entry, from).contains(x),
    ensures
        from <= k < arena[entry].len(),
        preorder(arena, arena[entry][k] as int).contains(x),
    decreases arena[entry].len() - from,
{
    assert(from < arena[entry].len());
    let child = arena[entry][from] as int;
    assert(entry < arena[entry][from] < arena.len());
    lemma_contains_concat(preorder(arena, child), preorder_from(arena, entry, from + 1), x);
    if preorder(arena, child).contains(x) {
        from
    } else {
        lemma_from_in_child(arena, entry, from + 1, x)
    }
}

/// What stands under the children of a call stands under the call.
proof fn lemma_from_in_preorder(arena: Seq<Seq<usize>>, entry: int, x: usize)
    requires
        well_formed(arena),
        0 <= entry < arena.len(),
        entry <= usize::MAX,
    ensures
        preorder(arena, entry).contains(x) <==> x == entry || preorder_from(
            arena,
            entry,
            0,
        ).contains(x),
{
    let head = seq![entry as usize];
    lemma_contains_concat(head, preorder_from(arena, entry, 0), x);
    if x == entry {
        assert(head[0] == x);
    }
}

/// With a call, the calls that it made stand under the same root.
proof fn lemma_child_follows(arena: Seq<Seq<usize>>, root: int, i: int, k: int)
    requires
        well_formed(arena),
        0 <= root < arena.len(),
        root <= usize::MAX,
        0 <= i < arena.len(),
        i <= usize::MAX,
        0 <= k < arena[i].len(),
        preorder(arena, root).contains(i as usize),
    ensures
        preorder(arena, root).contains(arena[i][k]),
    decreases arena.len() - root,
{
    let made = arena[i][k];
    assert(i < arena[i][k] < arena.len());
    lemma_from_in_preorder(arena, root, i as usize);
    lemma_from_in_preorder(arena, root, made);
    if i == root {
        lemma_preorder_bounds(arena, made as int);
        lemma_child_in_from(arena, root, 0, k, made);
    } else {
        let through = lemma_from_in_child(arena, root, 0, i as usize);
        assert(root < arena[root][through] < arena.len());
        lemma_child_follows(arena, arena[root][through] as int, i, k);
        lemma_child_in_from(arena, root, 0, through, made);
    }
}

/// In a tree every place is one that a call can name.
proof fn lemma_place_fits(arena: Seq<Seq<usize>>, place: int)
    requires
        is_tree(arena),
        0 <= place < arena.len(),
    ensures
        place <= usize::MAX,
{
    if place > 0 {
        assert(has_parent(arena, place));
        let (parent, k) = choose|parent: int, k: int| is_child(arena, parent, k, place);
    }
}

/// In a tree every call stands under the root.
pub proof fn lemma_all_reached(arena: Seq<Seq<usize>>, place: int)
    requires
        is_tree(arena),
        0 <= place < arena.len(),
    ensures
        preorder(arena, 0).contains(place as usize),
    decreases place,
{
    if place == 0 {
        lemma_preorder_bounds(arena, 0);
    } else {
        assert(has_parent(arena, place));
        let (parent, k) = choose|parent: int, k: int| is_child(arena, parent, k, place);
        assert(parent < arena[parent][k] < arena.len());
        lemma_all_reached(arena, parent);
        lemma_child_follows(arena, 0, parent, k);
        assert(arena[parent][k] == place as usize);
    }
}

/// A call that stands under a root, and is not the root, was made by a call
/// under that root.
proof fn lemma_parent_inside(arena: Seq<Seq<usize>>, root: int, x: usize) -> (made_by: (int, int))
    requires
        well_formed(arena),
        0 <= root < arena.len(),
        root <= usize::MAX,
        preorder(arena, root).contains(x),
        x != root,
    ensures
        is_child(arena, made_by.0, made_by.1, x as int),
        preorder(arena, root).contains(made_by.0 as usize),
    decreases arena.len() - root,
{
    lemma_from_in_preorder(arena, root, x);
    let through = lemma_from_in_child(arena, root, 0, x);
    let child = arena[root][through];
    assert(root < arena[root][through] < arena.len());
    if x == child {
        lemma_preorder_bounds(arena, root);
        (root, through)
    } else {
        let made_by = lemma_parent_inside(arena, child as int, x);
        lemma_child_in_from(arena, root, 0, through, made_by.0 as usize);
        lemma_from_in_preorder(arena, root, made_by.0 as usize);
        made_by
    }
}

/// In a tree a call stands under one child of a call only.
proof fn lemma_siblings_apart(arena: Seq<Seq<usize>>, entry: int, k: int, l: int, x: usize)
    requires
        is_tree(arena),
        0 <= entry < arena.len(),
        entry <= usize::MAX,
        0 <= k < arena[entry].len(),
        0 <= l < arena[entry].len(),
        preorder(arena, arena[entry][k] as int).contains(x),
        preorder(arena, arena[entry][l] as int).contains(x),
    ensures
        k == l,
    decreases x,
{
    if k != l {
        let first = arena[entry][k];
        let second = arena[entry][l];
        assert(entry < arena[entry][k] < arena.len());
        assert(entry < arena[entry][l] < arena.len());
        lemma_preorder_bounds(arena, first as int);
        lemma_preorder_bounds(arena, second as int);
        if x == first {
            let made_by = lemma_parent_inside(arena, second as int, x);
            assert(arena[made_by.0][made_by.1] == arena[entry][k]);
            assert(made_by.0 == entry);
        } else if x == second {
            let made_by = lemma_parent_inside(arena, first as int, x);
            assert(arena[made_by.0][made_by.1] == arena[entry][l]);
            assert(made_by.0 == entry);
        } else {
            let one = lemma_parent_inside(arena, first as int, x);
            let other = lemma_parent_inside(arena, second as int, x);
            assert(arena[one.0][one.1] == arena[other.0][other.1]);
            assert(one.0 == other.0);
            assert(one.0 < arena[one.0][one.1] < arena.len());
            lemma_siblings_apart(arena, entry, k, l, one.0 as usize);
        }
    }
}

/// In a tree no call stands twice under a call.
pub proof fn lemma_preorder_distinct(arena: Seq<Seq<usize>>, entry: int)
    requires
        is_tree(arena),
        0 <= entry < arena.len(),
        entry <= usize::MAX,
    ensures
        preorder(arena, entry).no_duplicates(),
    decreases arena.len() - entry, 1int, 0int,
{
    lemma_from_distinct(arena, entry, 0);
    lemma_from_bounds(arena, entry, 0);
    let head = seq![entry as usize];
    lemma_no_dup_in_concat(head, preorder_from(arena, entry, 0));
}

/// In a tree no call stands twice under the children of a call.
proof fn lemma_from_distinct(arena: Seq<Seq<usize>>, entry: int, k: int)
    requires
        is_tree(arena),
        0 <= entry < arena.len(),
        entry <= usize::MAX,
        0 <= k,
    ensures
        preorder_from(arena, entry, k).no_duplicates(),
    decreases arena.len() - entry, 0int, arena[entry].len() - k,
{
    if k < arena[entry].len() {
        let child = arena[entry][k] as int;
        assert(entry < arena[entry][k] < arena.len());
        let under = preorder(arena, child);
        let rest = preorder_from(arena, entry, k + 1);
        lemma_preorder_distinct(arena, child);
        lemma_from_distinct(arena, entry, k + 1);
        assert forall|a: int, b: int| 0 <= a < under.len() && 0 <= b < rest.len() implies under[a]
            != rest[b] by {
            if under[a] == rest[b] {
                let x = under[a];
                assert(under.contains(x));
                assert(rest.contains(x));
                let l = lemma_from_in_child(arena, entry, k + 1, x);
                lemma_siblings_apart(arena, entry, k, l, x);
            }
        }
        lemma_no_dup_in_concat(under, rest);
    }
}

/// The frames of a tree are all its calls but the root, each once: as many
/// as the arena has calls, less one.
pub proof fn lemma_tree_frames(arena: Seq<Seq<usize>>)
    requires
        is_tree(arena),
    ensures
        frames(arena).len() == arena.len() - 1,
        frames(arena).no_duplicates(),
        forall|place: usize| 1 <= place < arena.len() ==> frames(arena).contains(place),
        !frames(arena).contains(0usize),
{
    let all = preorder(arena, 0);
    let shown = frames(arena);
    lemma_preorder_bounds(arena, 0);
    lemma_preorder_distinct(arena, 0);
    let numbers = all.map_values(|x: usize| x as int);
    assert(numbers.no_duplicates()) by {
        assert forall|a: int, b: int|
            0 <= a < numbers.len() && 0 <= b < numbers.len() && a != b implies numbers[a]
            != numbers[b] by {
            assert(all[a] != all[b]);
        }
    }
    lemma_int_range(0, arena.len() as int);
    assert(numbers.to_set() =~= set_int_range(0, arena.len() as int)) by {
        assert forall|q: int| numbers.to_set().contains(q) implies set_int_range(
            0,
            arena.len() as int,
        ).contains(q) by {
            let t = choose|t: int| 0 <= t < numbers.len() && numbers[t] == q;
            assert(0 <= all[t] < arena.len());
        }
        assert forall|q: int| set_int_range(0, arena.len() as int).contains(
            q,
        ) implies numbers.to_set().contains(q) by {
            lemma_all_reached(arena, q);
            lemma_place_fits(arena, q);
            let t = choose|t: int| 0 <= t < all.len() && all[t] == q as usize;
            assert(numbers[t] == q);
        }
    }
    numbers.unique_seq_to_set();
    assert(all.len() == arena.len());
    assert forall|a: int, b: int|
        0 <= a < shown.len() && 0 <= b < shown.len() && a != b implies shown[a] != shown[b] by {
        assert(shown[a] == all[a + 1] && shown[b] == all[b + 1]);
    }
    assert forall|place: usize| 1 <= place < arena.len() implies shown.contains(place) by {
        lemma_all_reached(arena, place as int);
        let t = choose|t: int| 0 <= t < all.len() && all[t] == place;
        assert(t >= 1);
        assert(shown[t - 1] == place);
    }
    if shown.contains(0usize) {
        let t = choose|t: int| 0 <= t < shown.len() && shown[t] == 0usize;
        assert(all[t + 1] == all[0]);
    }
}

} // verus!
