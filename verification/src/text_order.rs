//! The order of texts by their characters, and lists in that order.

use crate::text::{chars_of, views};
use vstd::prelude::*;

verus! {

/// True if `a` comes before `b` in the order of their characters.
pub open spec fn text_less(a: Seq<char>, b: Seq<char>) -> bool
    decreases a.len(),
{
    if b.len() == 0 {
        false
    } else if a.len() == 0 {
        true
    } else if a[0] != b[0] {
        (a[0] as int) < (b[0] as int)
    } else {
        text_less(a.drop_first(), b.drop_first())
    }
}

/// True if each text comes before all that follow it.
pub open spec fn ascending(list: Seq<Seq<char>>) -> bool {
    forall|i: int, j: int|
        0 <= i < j < list.len() ==> text_less(#[trigger] list[i], #[trigger] list[j])
}

/// No text comes before itself.
pub proof fn law_order_is_irreflexive(a: Seq<char>)
    ensures
        !text_less(a, a),
    decreases a.len(),
{
    if a.len() > 0 {
        law_order_is_irreflexive(a.drop_first());
    }
}

/// What comes before a text also comes before all that the text comes before.
pub proof fn law_order_is_transitive(a: Seq<char>, b: Seq<char>, c: Seq<char>)
    requires
        text_less(a, b),
        text_less(b, c),
    ensures
        text_less(a, c),
    decreases a.len(),
{
    if a.len() > 0 && a[0] == b[0] && b[0] == c[0] {
        law_order_is_transitive(a.drop_first(), b.drop_first(), c.drop_first());
    }
}

/// Of two different texts one comes before the other.
pub proof fn law_order_is_total(a: Seq<char>, b: Seq<char>)
    ensures
        a == b || text_less(a, b) || text_less(b, a),
    decreases a.len(),
{
    if a.len() > 0 && b.len() > 0 {
        if a[0] == b[0] {
            law_order_is_total(a.drop_first(), b.drop_first());
            assert(a =~= seq![a[0]] + a.drop_first());
            assert(b =~= seq![b[0]] + b.drop_first());
        }
    } else if a.len() == 0 && b.len() == 0 {
        assert(a =~= b);
    }
}

/// True if `a` comes before `b`.
pub fn before(a: &str, b: &str) -> (r: bool)
    ensures
        r == text_less(a@, b@),
{
    let x = chars_of(a);
    let y = chars_of(b);
    let mut i: usize = 0;
    assert(x@.skip(0) =~= x@);
    assert(y@.skip(0) =~= y@);
    while i < x.len() && i < y.len() && x[i] == y[i]
        invariant
            i <= x@.len(),
            i <= y@.len(),
            x@ == a@,
            y@ == b@,
            text_less(a@, b@) == text_less(x@.skip(i as int), y@.skip(i as int)),
        decreases x@.len() - i,
    {
        assert(x@.skip(i as int).drop_first() =~= x@.skip(i + 1));
        assert(y@.skip(i as int).drop_first() =~= y@.skip(i + 1));
        i = i + 1;
    }
    if i >= y.len() {
        false
    } else if i >= x.len() {
        true
    } else {
        x[i] < y[i]
    }
}

/// The texts of a list in ascending order, each once.
pub fn sorted_distinct(list: &Vec<String>) -> (r: Vec<String>)
    ensures
        ascending(views(r@)),
        forall|t: Seq<char>| views(r@).contains(t) <==> views(list@).contains(t),
{
    let mut out: Vec<String> = Vec::new();
    let mut i: usize = 0;
    while i < list.len()
        invariant
            i <= list@.len(),
            ascending(views(out@)),
            forall|t: Seq<char>|
                views(out@).contains(t) <==> views(list@).take(i as int).contains(t),
        decreases list@.len() - i,
    {
        let ghost head = views(list@).take(i as int);
        let ghost next = views(list@).take(i + 1);
        let ghost item = list@[i as int]@;
        assert(next =~= head.push(item));
        let ghost earlier = views(out@);
        insert_sorted(&mut out, &list[i]);
        assert forall|t: Seq<char>| views(out@).contains(t) <==> next.contains(t) by {
            if next.contains(t) {
                let k = choose|k: int| 0 <= k < next.len() && next[k] == t;
                if k < i {
                    assert(head[k] == t);
                    assert(head.contains(t));
                }
            }
            if head.contains(t) {
                let k = choose|k: int| 0 <= k < head.len() && head[k] == t;
                assert(next[k] == t);
            }
            assert(next[i as int] == item);
        }
        i = i + 1;
    }
    assert(views(list@).take(list@.len() as int) =~= views(list@));
    out
}

/// Puts a text into an ascending list, where it is not there yet.
fn insert_sorted(list: &mut Vec<String>, item: &String)
    requires
        ascending(views(old(list)@)),
    ensures
        ascending(views(final(list)@)),
        forall|t: Seq<char>|
            views(final(list)@).contains(t) <==> views(old(list)@).contains(t) || t == item@,
{
    let ghost start = views(list@);
    let mut at: usize = 0;
    while at < list.len() && before(list[at].as_str(), item.as_str())
        invariant
            at <= list@.len(),
            views(list@) == start,
            forall|j: int| 0 <= j < at ==> text_less(#[trigger] start[j], item@),
        decreases list@.len() - at,
    {
        assert(start[at as int] == list@[at as int]@);
        at = at + 1;
    }
    if at < list.len() {
        assert(start[at as int] == list@[at as int]@);
        if !before(item.as_str(), list[at].as_str()) {
            proof {
                law_order_is_total(start[at as int], item@);
                assert(start.contains(item@));
            }
            return;
        }
    }
    list.insert(at, item.clone());
    proof {
        let done = views(list@);
        assert(done =~= start.insert(at as int, item@));
        assert forall|i: int, j: int| 0 <= i < j < done.len() implies text_less(
            #[trigger] done[i],
            #[trigger] done[j],
        ) by {
            let x = if i <= at {
                i
            } else {
                i - 1
            };
            let y = if j <= at {
                j
            } else {
                j - 1
            };
            if i < at && j == at {
                assert(done[i] == start[i]);
            } else if i == at {
                assert(done[j] == start[j - 1]);
                if j - 1 > at {
                    law_order_is_transitive(item@, start[at as int], start[j - 1]);
                }
            } else {
                assert(done[i] == start[x]);
                assert(done[j] == start[y]);
            }
        }
        assert forall|t: Seq<char>| done.contains(t) <==> start.contains(t) || t == item@ by {
            if done.contains(t) {
                let k = choose|k: int| 0 <= k < done.len() && done[k] == t;
                if k < at {
                    assert(start[k] == t);
                } else if k > at {
                    assert(start[k - 1] == t);
                }
            }
            if start.contains(t) {
                let k = choose|k: int| 0 <= k < start.len() && start[k] == t;
                if k < at {
                    assert(done[k] == t);
                } else {
                    assert(done[k + 1] == t);
                }
            }
            assert(done[at as int] == item@);
        }
    }
}

/// True if place `a` comes before place `b`: its text is before the other, or the same and
/// in an earlier place.
pub open spec fn place_before(keys: Seq<Seq<char>>, a: int, b: int) -> bool {
    text_less(keys[a], keys[b]) || (keys[a] == keys[b] && a < b)
}

/// True if these are all the places of a list, in the order of the texts there; places with
/// the same text stay as they are.
pub open spec fn is_order(keys: Seq<Seq<char>>, places: Seq<int>) -> bool {
    &&& places.len() == keys.len()
    &&& forall|k: int| 0 <= k < places.len() ==> 0 <= #[trigger] places[k] < keys.len()
    &&& forall|k: int, l: int|
        0 <= k < l < places.len() ==> place_before(keys, #[trigger] places[k], #[trigger] places[l])
}

/// The places of a list, in the order of the texts there.
pub fn ordered_places(keys: &Vec<String>) -> (r: Vec<usize>)
    ensures
        is_order(views(keys@), r@.map_values(|p: usize| p as int)),
{
    let ghost all = views(keys@);
    let mut order: Vec<usize> = Vec::new();
    let ghost mut places: Seq<int> = Seq::empty();
    let mut i: usize = 0;
    assert(places =~= order@.map_values(|p: usize| p as int));
    while i < keys.len()
        invariant
            i <= keys@.len(),
            all == views(keys@),
            places == order@.map_values(|p: usize| p as int),
            places.len() == i,
            forall|k: int| 0 <= k < places.len() ==> 0 <= #[trigger] places[k] < i,
            forall|k: int, l: int|
                0 <= k < l < places.len() ==> place_before(
                    all,
                    #[trigger] places[k],
                    #[trigger] places[l],
                ),
        decreases keys@.len() - i,
    {
        let ghost earlier = places;
        let mut at: usize = order.len();
        assert forall|k: int| 0 <= k < order@.len() implies (#[trigger] order@[k]) < i by {
            assert(places[k] == order@[k] as int);
        }
        while at > 0 && before(keys[i].as_str(), keys[order[at - 1]].as_str())
            invariant
                at <= order@.len(),
                i < keys@.len(),
                all == views(keys@),
                places == earlier,
                places == order@.map_values(|p: usize| p as int),
                forall|k: int| 0 <= k < order@.len() ==> (#[trigger] order@[k]) < i,
                forall|k: int|
                    at <= k < places.len() ==> text_less(all[i as int], all[#[trigger] places[k]]),
            decreases at,
        {
            assert(places[at - 1] == order@[at - 1] as int);
            at = at - 1;
        }
        order.insert(at, i);
        proof {
            places = earlier.insert(at as int, i as int);
            assert(places =~= order@.map_values(|p: usize| p as int));
            assert forall|k: int| 0 <= k < at implies place_before(
                all,
                #[trigger] earlier[k],
                i as int,
            ) by {
                assert(!text_less(all[i as int], all[earlier[at - 1]]));
                law_order_is_total(all[i as int], all[earlier[at - 1]]);
                if k < at - 1 {
                    assert(place_before(all, earlier[k], earlier[at - 1]));
                    if text_less(all[earlier[k]], all[earlier[at - 1]]) && text_less(
                        all[earlier[at - 1]],
                        all[i as int],
                    ) {
                        law_order_is_transitive(
                            all[earlier[k]],
                            all[earlier[at - 1]],
                            all[i as int],
                        );
                    }
                }
            }
            assert forall|k: int| 0 <= k < places.len() implies 0 <= #[trigger] places[k] < i
                + 1 by {
                if k < at {
                    assert(places[k] == earlier[k]);
                } else if k > at {
                    assert(places[k] == earlier[k - 1]);
                }
            }
            assert forall|k: int, l: int| 0 <= k < l < places.len() implies place_before(
                all,
                #[trigger] places[k],
                #[trigger] places[l],
            ) by {
                if k < at {
                    assert(places[k] == earlier[k]);
                } else if k > at {
                    assert(places[k] == earlier[k - 1]);
                }
                if l < at {
                    assert(places[l] == earlier[l]);
                } else if l > at {
                    assert(places[l] == earlier[l - 1]);
                }
            }
        }
        i = i + 1;
    }
    order
}

} // verus!
