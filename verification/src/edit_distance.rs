//! How many characters have to be inserted, deleted or replaced to turn one text into
//! another.

use crate::text::chars_of;
use vstd::prelude::*;

verus! {

/// The smaller of two numbers.
pub open spec fn smaller(a: nat, b: nat) -> nat {
    if a <= b {
        a
    } else {
        b
    }
}

/// The least number of insertions, deletions and replacements of single characters that
/// turn `a` into `b`.
pub open spec fn edit_distance(a: Seq<char>, b: Seq<char>) -> nat
    decreases a.len() + b.len(),
{
    if a.len() == 0 {
        b.len()
    } else if b.len() == 0 {
        a.len()
    } else {
        let delete = edit_distance(a.drop_last(), b) + 1;
        let insert = edit_distance(a, b.drop_last()) + 1;
        let replace = edit_distance(a.drop_last(), b.drop_last()) + if a.last() == b.last() {
            0nat
        } else {
            1nat
        };
        smaller(smaller(delete, insert), replace)
    }
}

/// The distance is at most the length of the longer text.
pub proof fn law_distance_is_bounded(a: Seq<char>, b: Seq<char>)
    ensures
        edit_distance(a, b) <= a.len() || edit_distance(a, b) <= b.len(),
        edit_distance(a, b) + a.len() >= b.len(),
        edit_distance(a, b) + b.len() >= a.len(),
    decreases a.len() + b.len(),
{
    if a.len() > 0 && b.len() > 0 {
        law_distance_is_bounded(a.drop_last(), b.drop_last());
        law_distance_is_bounded(a, b.drop_last());
        law_distance_is_bounded(a.drop_last(), b);
    }
}

/// The distance is the same in both directions.
pub proof fn law_distance_is_symmetric(a: Seq<char>, b: Seq<char>)
    ensures
        edit_distance(a, b) == edit_distance(b, a),
    decreases a.len() + b.len(),
{
    if a.len() > 0 && b.len() > 0 {
        law_distance_is_symmetric(a.drop_last(), b.drop_last());
        law_distance_is_symmetric(a, b.drop_last());
        law_distance_is_symmetric(a.drop_last(), b);
    }
}

/// The distance is nothing exactly between equal texts.
pub proof fn law_distance_is_zero_for_equal_texts(a: Seq<char>, b: Seq<char>)
    ensures
        edit_distance(a, b) == 0 <==> a == b,
    decreases a.len() + b.len(),
{
    if a.len() == 0 {
        if b.len() == 0 {
            assert(a =~= b);
        }
    } else if b.len() > 0 {
        law_distance_is_zero_for_equal_texts(a.drop_last(), b.drop_last());
        if edit_distance(a, b) == 0 {
            assert(a.last() == b.last());
            assert(a =~= a.drop_last().push(a.last()));
            assert(b =~= b.drop_last().push(b.last()));
        }
    }
}

/// A detour is never shorter.
pub proof fn law_distance_obeys_the_triangle_inequality(a: Seq<char>, b: Seq<char>, c: Seq<char>)
    ensures
        edit_distance(a, c) <= edit_distance(a, b) + edit_distance(b, c),
    decreases a.len() + b.len() + c.len(),
{
    law_distance_is_bounded(a, b);
    law_distance_is_bounded(b, c);
    law_distance_is_bounded(a, c);
    if a.len() > 0 && b.len() > 0 && c.len() > 0 {
        law_distance_obeys_the_triangle_inequality(a.drop_last(), b, c);
        law_distance_obeys_the_triangle_inequality(a, b, c.drop_last());
        law_distance_obeys_the_triangle_inequality(a, b.drop_last(), c);
        law_distance_obeys_the_triangle_inequality(a, b.drop_last(), c.drop_last());
        law_distance_obeys_the_triangle_inequality(a.drop_last(), b.drop_last(), c);
        law_distance_obeys_the_triangle_inequality(a.drop_last(), b.drop_last(), c.drop_last());
    }
}

/// True if `longer` is `shorter` with one character more, which stands in place `i`.
pub open spec fn is_insertion(shorter: Seq<char>, longer: Seq<char>, i: int) -> bool {
    0 <= i < longer.len() && shorter == longer.remove(i)
}

/// True if two texts are of one length and differ at most in place `i`.
pub open spec fn is_replacement(from: Seq<char>, to: Seq<char>, i: int) -> bool {
    0 <= i < from.len() && from.len() == to.len() && to == from.update(i, to[i])
}

/// True if `to` is what `from` becomes when one character is inserted, deleted or replaced in
/// place `i`.
pub open spec fn is_edit_at(from: Seq<char>, to: Seq<char>, i: int) -> bool {
    is_insertion(from, to, i) || is_insertion(to, from, i) || is_replacement(from, to, i)
}

/// True if `to` is what `from` becomes when one character is inserted, deleted or replaced.
pub open spec fn is_edit(from: Seq<char>, to: Seq<char>) -> bool {
    exists|i: int| is_edit_at(from, to, i)
}

/// True if a text of a list becomes the next one by one edit.
pub open spec fn is_edit_step(path: Seq<Seq<char>>, k: int) -> bool {
    is_edit(path[k], path[k + 1])
}

/// True if a list of texts leads from `a` to `b`, one edit at a time.
pub open spec fn is_edit_path(path: Seq<Seq<char>>, a: Seq<char>, b: Seq<char>) -> bool {
    &&& path.len() > 0
    &&& path[0] == a
    &&& path.last() == b
    &&& forall|k: int| 0 <= k < path.len() - 1 ==> #[trigger] is_edit_step(path, k)
}

/// What stands behind both texts does not put them further apart.
proof fn lemma_common_end(a: Seq<char>, b: Seq<char>, end: Seq<char>)
    ensures
        edit_distance(a + end, b + end) <= edit_distance(a, b),
    decreases end.len(),
{
    if end.len() == 0 {
        assert(a + end =~= a);
        assert(b + end =~= b);
    } else {
        lemma_common_end(a, b, end.drop_last());
        assert((a + end).drop_last() =~= a + end.drop_last());
        assert((b + end).drop_last() =~= b + end.drop_last());
    }
}

proof fn lemma_insertion_is_one_step(shorter: Seq<char>, longer: Seq<char>, i: int)
    requires
        is_insertion(shorter, longer, i),
    ensures
        edit_distance(shorter, longer) <= 1,
        edit_distance(longer, shorter) <= 1,
{
    let head = longer.take(i);
    let with = longer.take(i + 1);
    let end = longer.skip(i + 1);
    assert(shorter =~= head + end);
    assert(longer =~= with + end);
    assert(with.drop_last() =~= head);
    law_distance_is_zero_for_equal_texts(head, head);
    assert(edit_distance(head, with) <= 1);
    lemma_common_end(head, with, end);
    law_distance_is_symmetric(shorter, longer);
}

proof fn lemma_edit_is_one_step(from: Seq<char>, to: Seq<char>)
    requires
        is_edit(from, to),
    ensures
        edit_distance(from, to) <= 1,
{
    let i = choose|i: int| is_edit_at(from, to, i);
    if is_insertion(from, to, i) {
        lemma_insertion_is_one_step(from, to, i);
    } else if is_insertion(to, from, i) {
        lemma_insertion_is_one_step(to, from, i);
    } else {
        let head = from.take(i);
        let end = from.skip(i + 1);
        let a = from.take(i + 1);
        let b = to.take(i + 1);
        assert(a.drop_last() =~= head);
        assert(b.drop_last() =~= head);
        assert(from =~= a + end);
        assert(to =~= b + end);
        law_distance_is_zero_for_equal_texts(head, head);
        assert(edit_distance(a, b) <= 1);
        lemma_common_end(a, b, end);
    }
}

proof fn lemma_path_is_long_enough(path: Seq<Seq<char>>, a: Seq<char>, b: Seq<char>)
    requires
        is_edit_path(path, a, b),
    ensures
        edit_distance(a, b) + 1 <= path.len(),
    decreases path.len(),
{
    if path.len() == 1 {
        law_distance_is_zero_for_equal_texts(a, b);
    } else {
        let init = path.drop_last();
        let last = path.len() - 2;
        assert forall|k: int| 0 <= k < init.len() - 1 implies #[trigger] is_edit_step(init, k) by {
            assert(is_edit_step(path, k));
        }
        lemma_path_is_long_enough(init, a, path[last]);
        assert(is_edit_step(path, last));
        lemma_edit_is_one_step(path[last], b);
        law_distance_obeys_the_triangle_inequality(a, path[last], b);
    }
}

/// An edit stays one when a character is put behind both texts.
proof fn lemma_edit_before_a_character(from: Seq<char>, to: Seq<char>, c: char)
    requires
        is_edit(from, to),
    ensures
        is_edit(from.push(c), to.push(c)),
{
    let i = choose|i: int| is_edit_at(from, to, i);
    if is_insertion(from, to, i) {
        assert(to.push(c).remove(i) =~= from.push(c));
    } else if is_insertion(to, from, i) {
        assert(from.push(c).remove(i) =~= to.push(c));
    } else {
        assert(to.push(c) =~= from.push(c).update(i, to.push(c)[i]));
    }
    assert(is_edit_at(from.push(c), to.push(c), i));
}

/// A way from `a` to `b` with no more edits than have to be.
proof fn lemma_shortest_path(a: Seq<char>, b: Seq<char>) -> (path: Seq<Seq<char>>)
    ensures
        is_edit_path(path, a, b),
        path.len() == edit_distance(a, b) + 1,
    decreases a.len() + b.len(),
{
    if a.len() == 0 {
        let path = Seq::new((b.len() + 1) as nat, |k: int| b.take(k));
        assert(path[0] =~= a);
        assert(path.last() =~= b);
        assert forall|k: int| 0 <= k < path.len() - 1 implies #[trigger] is_edit_step(path, k) by {
            assert(path[k] =~= path[k + 1].remove(k));
            assert(is_edit_at(path[k], path[k + 1], k));
        }
        path
    } else if b.len() == 0 {
        let path = Seq::new((a.len() + 1) as nat, |k: int| a.take(a.len() - k));
        assert(path[0] =~= a);
        assert(path.last() =~= b);
        assert forall|k: int| 0 <= k < path.len() - 1 implies #[trigger] is_edit_step(path, k) by {
            let at = a.len() - k - 1;
            assert(path[k + 1] =~= path[k].remove(at));
            assert(is_edit_at(path[k], path[k + 1], at));
        }
        path
    } else if edit_distance(a, b) == edit_distance(a.drop_last(), b) + 1 {
        let rest = lemma_shortest_path(a.drop_last(), b);
        let path = seq![a] + rest;
        assert forall|k: int| 0 <= k < path.len() - 1 implies #[trigger] is_edit_step(path, k) by {
            if k == 0 {
                assert(path[1] =~= a.remove(a.len() - 1));
                assert(is_edit_at(path[0], path[1], a.len() - 1));
            } else {
                assert(is_edit_step(rest, k - 1));
            }
        }
        path
    } else if edit_distance(a, b) == edit_distance(a, b.drop_last()) + 1 {
        let rest = lemma_shortest_path(a, b.drop_last());
        let path = rest.push(b);
        assert forall|k: int| 0 <= k < path.len() - 1 implies #[trigger] is_edit_step(path, k) by {
            if k < rest.len() - 1 {
                assert(is_edit_step(rest, k));
            } else {
                assert(path[k] =~= b.remove(b.len() - 1));
                assert(is_edit_at(path[k], path[k + 1], b.len() - 1));
            }
        }
        path
    } else {
        let c = a.last();
        let rest = lemma_shortest_path(a.drop_last(), b.drop_last());
        let all = rest.map_values(|text: Seq<char>| text.push(c));
        assert(all[0] =~= a);
        assert forall|k: int| 0 <= k < all.len() - 1 implies #[trigger] is_edit_step(all, k) by {
            assert(is_edit_step(rest, k));
            lemma_edit_before_a_character(rest[k], rest[k + 1], c);
        }
        assert(b =~= b.drop_last().push(b.last()));
        if c == b.last() {
            all
        } else {
            let path = all.push(b);
            assert forall|k: int| 0 <= k < path.len() - 1 implies #[trigger] is_edit_step(
                path,
                k,
            ) by {
                if k < all.len() - 1 {
                    assert(is_edit_step(all, k));
                } else {
                    assert(b =~= path[k].update(b.len() - 1, b[b.len() - 1]));
                    assert(is_edit_at(path[k], path[k + 1], b.len() - 1));
                }
            }
            path
        }
    }
}

/// The distance is the least number of edits that lead from one text to the other: so many
/// are enough, and no fewer.
pub proof fn law_distance_is_the_least_number_of_edits(a: Seq<char>, b: Seq<char>)
    ensures
        exists|path: Seq<Seq<char>>| #[trigger]
            is_edit_path(path, a, b) && path.len() == edit_distance(a, b) + 1,
        forall|path: Seq<Seq<char>>| #[trigger]
            is_edit_path(path, a, b) ==> path.len() >= edit_distance(a, b) + 1,
{
    let path = lemma_shortest_path(a, b);
    assert(is_edit_path(path, a, b));
    assert forall|path: Seq<Seq<char>>| #[trigger] is_edit_path(path, a, b) implies path.len()
        >= edit_distance(a, b) + 1 by {
        lemma_path_is_long_enough(path, a, b);
    }
}

/// The least number of insertions, deletions and replacements of single characters that
/// turn `left` into `right`.
pub fn levenshtein_distance(left: &str, right: &str) -> (r: usize)
    ensures
        r == edit_distance(left@, right@),
{
    let a = chars_of(left);
    let b = chars_of(right);
    let mut previous: Vec<u128> = Vec::new();
    previous.push(0);
    let mut j: usize = 0;
    assert(a@.take(0) =~= Seq::<char>::empty());
    while j < b.len()
        invariant
            j <= b@.len(),
            a@.take(0) == Seq::<char>::empty(),
            previous@.len() == j + 1,
            forall|k: int|
                0 <= k <= j ==> #[trigger] previous@[k] == edit_distance(a@.take(0), b@.take(k)),
        decreases b@.len() - j,
    {
        j = j + 1;
        previous.push(j as u128);
        assert(edit_distance(a@.take(0), b@.take(j as int)) == j);
    }
    let mut i: usize = 0;
    while i < a.len()
        invariant
            i <= a@.len(),
            previous@.len() == b@.len() + 1,
            forall|k: int|
                0 <= k <= b@.len() ==> #[trigger] previous@[k] == edit_distance(
                    a@.take(i as int),
                    b@.take(k),
                ),
        decreases a@.len() - i,
    {
        let mut current: Vec<u128> = Vec::new();
        current.push(i as u128 + 1);
        let ghost row = a@.take(i + 1);
        assert(row.drop_last() =~= a@.take(i as int));
        assert(row.last() == a@[i as int]);
        let mut j: usize = 0;
        while j < b.len()
            invariant
                i < a@.len(),
                j <= b@.len(),
                row == a@.take(i + 1),
                row.drop_last() == a@.take(i as int),
                row.last() == a@[i as int],
                previous@.len() == b@.len() + 1,
                current@.len() == j + 1,
                forall|k: int|
                    0 <= k <= b@.len() ==> #[trigger] previous@[k] == edit_distance(
                        a@.take(i as int),
                        b@.take(k),
                    ),
                forall|k: int|
                    0 <= k <= j ==> #[trigger] current@[k] == edit_distance(row, b@.take(k)),
            decreases b@.len() - j,
        {
            let ghost column = b@.take(j + 1);
            assert(column.drop_last() =~= b@.take(j as int));
            assert(column.last() == b@[j as int]);
            proof {
                law_distance_is_bounded(a@.take(i as int), column);
                law_distance_is_bounded(row, b@.take(j as int));
                law_distance_is_bounded(a@.take(i as int), b@.take(j as int));
            }
            let cost: u128 = if a[i] == b[j] {
                0
            } else {
                1
            };
            let delete = previous[j + 1] + 1;
            let insert = current[j] + 1;
            let replace = previous[j] + cost;
            let mut best: u128 = delete;
            if insert < best {
                best = insert;
            }
            if replace < best {
                best = replace;
            }
            current.push(best);
            assert(best == edit_distance(row, column));
            j = j + 1;
        }
        previous = current;
        i = i + 1;
    }
    assert(a@.take(a@.len() as int) =~= a@);
    assert(b@.take(b@.len() as int) =~= b@);
    proof {
        law_distance_is_bounded(a@, b@);
    }
    previous[b.len()] as usize
}

} // verus!
