//! A model of the spool directory, and the laws of the item lifecycle over it.
//!
//! A spool is a map from file names to the bytes the files hold. Each
//! operation of the queue changes it by the renames and deletions that the
//! plans of `select` decide; the laws below state what those changes add up
//! to.
use vstd::prelude::*;
use crate::name::{consumed_of, consumed_suffix, is_consumed, is_visible, restored_of};
use crate::select::{consumed_names, recovery_moves};

verus! {

/// A spool directory: each file's name and its contents.
pub type SpoolModel = Map<Seq<char>, Seq<u8>>;

/// The names of the items waiting for a consumer.
pub open spec fn visible_items(d: SpoolModel) -> Set<Seq<char>> {
    d.dom().filter(|n: Seq<char>| is_visible(n))
}

/// The names of the items taken and not yet acknowledged.
pub open spec fn consumed_items(d: SpoolModel) -> Set<Seq<char>> {
    d.dom().filter(|n: Seq<char>| is_consumed(n))
}

/// Whether `ls` is a listing of the directory `d`: each name in it once.
pub open spec fn lists(ls: Seq<Seq<char>>, d: SpoolModel) -> bool {
    ls.to_set() == d.dom()
}

/// The spool once the item `v` holding `b` is published.
pub open spec fn after_push(d: SpoolModel, v: Seq<char>, b: Seq<u8>) -> SpoolModel {
    d.insert(v, b)
}

/// The spool once a consumer has taken the visible item `v`.
pub open spec fn after_pop(d: SpoolModel, v: Seq<char>) -> SpoolModel {
    d.remove(v).insert(consumed_of(v), d[v])
}

/// The spool once every consumed item is deleted.
pub open spec fn after_flush(d: SpoolModel) -> SpoolModel {
    d.restrict(d.dom().filter(|n: Seq<char>| !is_consumed(n)))
}

/// Whether the visible name `n` has a consumed item to go back to it.
pub open spec fn restores_to(d: SpoolModel, n: Seq<char>) -> bool {
    is_visible(n) && d.contains_key(consumed_of(n))
}

/// The spool once every consumed item is renamed back to its visible name.
pub open spec fn after_recover(d: SpoolModel) -> SpoolModel {
    Map::new(
        |n: Seq<char>| (d.contains_key(n) && !is_consumed(n)) || restores_to(d, n),
        |n: Seq<char>|
            if restores_to(d, n) {
                d[consumed_of(n)]
            } else {
                d[n]
            },
    )
}

/// The spool once consumers have taken the items `vs`, in that order.
pub open spec fn after_pops(d: SpoolModel, vs: Seq<Seq<char>>) -> SpoolModel
    decreases vs.len(),
{
    if vs.len() == 0 {
        d
    } else {
        after_pop(after_pops(d, vs.drop_last()), vs.last())
    }
}

/// A visible name is never a consumed one.
pub proof fn lemma_visible_not_consumed(n: Seq<char>)
    requires
        is_visible(n),
    ensures
        !is_consumed(n),
{
    if is_consumed(n) {
        assert(n[n.len() - 9] == consumed_suffix()[0]);
    }
}

/// Marking a visible name consumed and restoring it are inverse.
pub proof fn lemma_consumed_round_trip(v: Seq<char>, c: Seq<char>)
    ensures
        is_visible(v) ==> is_consumed(consumed_of(v)) && restored_of(consumed_of(v)) == v,
        is_consumed(c) ==> is_visible(restored_of(c)) && consumed_of(restored_of(c)) == c,
        is_consumed(consumed_of(v)) ==> is_visible(v),
{
    let cv = consumed_of(v);
    assert(cv.subrange(cv.len() - 9, cv.len() as int) =~= consumed_suffix());
    assert(cv.subrange(0, cv.len() - 9) =~= v);
    if is_consumed(c) {
        assert(consumed_of(restored_of(c)) =~= c);
    }
}

/// A listing shows every visible item of the directory it lists, and nothing
/// else.
pub proof fn lemma_listing_visible(ls: Seq<Seq<char>>, d: SpoolModel)
    requires
        lists(ls, d),
    ensures
        forall|i: int| 0 <= i < ls.len() && is_visible(#[trigger] ls[i]) ==> visible_items(d).contains(ls[i]),
        forall|n: Seq<char>| visible_items(d).contains(n) ==> ls.contains(n),
{
    assert forall|i: int| 0 <= i < ls.len() && is_visible(#[trigger] ls[i]) implies visible_items(d).contains(ls[i]) by {
        assert(ls.to_set().contains(ls[i]));
    }
    assert forall|n: Seq<char>| visible_items(d).contains(n) implies ls.contains(n) by {
        assert(ls.to_set().contains(n));
    }
}

/// Push then pop: an item pushed on a spool with nothing visible is, in every
/// listing, the only visible name, so a consumer gets it with the bytes that
/// were pushed; once it is taken, nothing is visible any more.
pub proof fn law_push_then_pop(d: SpoolModel, v: Seq<char>, b: Seq<u8>, ls: Seq<Seq<char>>, ls2: Seq<Seq<char>>)
    requires
        visible_items(d).is_empty(),
        is_visible(v),
        lists(ls, after_push(d, v, b)),
        lists(ls2, after_pop(after_push(d, v, b), v)),
    ensures
        visible_items(after_push(d, v, b)) == set![v],
        ls.contains(v),
        forall|i: int| 0 <= i < ls.len() && is_visible(#[trigger] ls[i]) ==> ls[i] == v,
        after_pop(after_push(d, v, b), v)[consumed_of(v)] == b,
        visible_items(after_pop(after_push(d, v, b), v)).is_empty(),
        forall|i: int| 0 <= i < ls2.len() ==> !is_visible(#[trigger] ls2[i]),
{
    let d1 = after_push(d, v, b);
    let d2 = after_pop(d1, v);
    assert(visible_items(d).contains(v) == false);
    assert(visible_items(d1) =~= set![v]) by {
        assert forall|n: Seq<char>| visible_items(d1).contains(n) implies n == v by {
            if n != v {
                assert(visible_items(d).contains(n));
            }
        }
    }
    lemma_listing_visible(ls, d1);
    lemma_consumed_round_trip(v, v);
    lemma_visible_not_consumed(v);
    assert(visible_items(d2) =~= Set::<Seq<char>>::empty()) by {
        assert forall|n: Seq<char>| visible_items(d2).contains(n) implies false by {
            if n != consumed_of(v) {
                assert(visible_items(d1).contains(n));
            } else {
                lemma_visible_not_consumed(n);
            }
        }
    }
    lemma_listing_visible(ls2, d2);
}

/// A pop takes exactly the chosen item: it leaves the visible set less that
/// one name, and keeps its bytes under the consumed name. On a finite spool
/// the number of visible items drops by one.
pub proof fn law_pop_takes_one(d: SpoolModel, v: Seq<char>)
    requires
        visible_items(d).contains(v),
    ensures
        visible_items(after_pop(d, v)) == visible_items(d).remove(v),
        after_pop(d, v)[consumed_of(v)] == d[v],
        d.dom().finite() ==> visible_items(after_pop(d, v)).len() + 1 == visible_items(d).len(),
{
    let d2 = after_pop(d, v);
    lemma_consumed_round_trip(v, v);
    assert(!is_visible(consumed_of(v))) by {
        if is_visible(consumed_of(v)) {
            lemma_visible_not_consumed(consumed_of(v));
        }
    }
    assert(visible_items(d2) =~= visible_items(d).remove(v));
    if d.dom().finite() {
        d.dom().lemma_len_filter(|n: Seq<char>| is_visible(n));
    }
}

/// Two consumers never get one item: once `v` is taken, its visible file is
/// gone, so a second rename of it fails and no listing offers it again.
pub proof fn law_single_winner(d: SpoolModel, v: Seq<char>)
    requires
        visible_items(d).contains(v),
    ensures
        !after_pop(d, v).contains_key(v),
        !visible_items(after_pop(d, v)).contains(v),
{
    lemma_consumed_round_trip(v, v);
    lemma_visible_not_consumed(v);
    assert(consumed_of(v) != v) by {
        assert(consumed_of(v).len() != v.len());
    }
}

/// At-least-once delivery: an item taken and not acknowledged is visible
/// again after a recovery, with the bytes it was pushed with.
pub proof fn law_recover_redelivers(d: SpoolModel, v: Seq<char>)
    requires
        visible_items(d).contains(v),
    ensures
        after_recover(after_pop(d, v)).contains_key(v),
        after_recover(after_pop(d, v))[v] == d[v],
        visible_items(after_recover(after_pop(d, v))).contains(v),
{
    lemma_consumed_round_trip(v, v);
    assert(restores_to(after_pop(d, v), v));
}

/// Acknowledgment: an item taken and then flushed is gone for good; a
/// recovery brings back neither it nor its consumed file, and leaves the
/// other visible items as they were.
pub proof fn law_flush_acknowledges(d: SpoolModel, v: Seq<char>)
    requires
        visible_items(d).contains(v),
    ensures
        !after_recover(after_flush(after_pop(d, v))).contains_key(v),
        !after_recover(after_flush(after_pop(d, v))).contains_key(consumed_of(v)),
        visible_items(after_recover(after_flush(after_pop(d, v)))) == visible_items(d).remove(v),
{
    let d2 = after_pop(d, v);
    let f = after_flush(d2);
    let e = after_recover(f);
    lemma_consumed_round_trip(v, v);
    law_pop_takes_one(d, v);
    law_single_winner(d, v);
    assert(!f.contains_key(consumed_of(v)));
    assert(!restores_to(f, v));
    assert(visible_items(e) =~= visible_items(d2)) by {
        assert forall|n: Seq<char>| visible_items(e).contains(n) implies visible_items(d2).contains(n) by {
            if restores_to(f, n) {
                lemma_consumed_round_trip(n, n);
            }
        }
        assert forall|n: Seq<char>| visible_items(d2).contains(n) implies visible_items(e).contains(n) by {
            lemma_visible_not_consumed(n);
        }
    }
}

/// A flush on a spool with nothing consumed changes nothing, and a second
/// flush changes nothing either.
pub proof fn law_flush_idempotent(d: SpoolModel)
    ensures
        consumed_items(d).is_empty() ==> after_flush(d) == d,
        after_flush(after_flush(d)) == after_flush(d),
        consumed_items(after_flush(d)).is_empty(),
{
    if consumed_items(d).is_empty() {
        assert forall|n: Seq<char>| d.contains_key(n) implies !is_consumed(n) by {
            assert(!consumed_items(d).contains(n));
        }
        assert(after_flush(d) =~= d);
    }
    assert(after_flush(after_flush(d)) =~= after_flush(d));
    assert(consumed_items(after_flush(d)) =~= Set::<Seq<char>>::empty());
}

/// A recovery on a spool with nothing consumed changes nothing, and a second
/// recovery changes nothing either.
pub proof fn law_recover_idempotent(d: SpoolModel)
    ensures
        consumed_items(d).is_empty() ==> after_recover(d) == d,
        after_recover(after_recover(d)) == after_recover(d),
        consumed_items(after_recover(d)).is_empty(),
{
    let r = after_recover(d);
    assert forall|n: Seq<char>| r.contains_key(n) implies !is_consumed(n) by {
        if restores_to(d, n) {
            lemma_visible_not_consumed(n);
        }
    }
    assert(consumed_items(r) =~= Set::<Seq<char>>::empty());
    assert forall|d2: SpoolModel| consumed_items(d2).is_empty() implies after_recover(d2) =~= d2 by {
        assert forall|n: Seq<char>| d2.contains_key(n) implies !is_consumed(n) by {
            assert(!consumed_items(d2).contains(n));
        }
        assert forall|n: Seq<char>| !restores_to(d2, n) by {
            if restores_to(d2, n) {
                lemma_consumed_round_trip(n, n);
                assert(consumed_items(d2).contains(consumed_of(n)));
            }
        }
    }
}

/// The consumed names of a listing are exactly its names that are consumed.
proof fn lemma_consumed_names_contains(ls: Seq<Seq<char>>, x: Seq<char>)
    ensures
        consumed_names(ls).contains(x) <==> ls.contains(x) && is_consumed(x),
    decreases ls.len(),
{
    if ls.len() == 0 {
        ls.lemma_filter_len(|n: Seq<char>| is_consumed(n));
    } else {
        let init = ls.drop_last();
        lemma_consumed_names_contains(init, x);
        assert(ls =~= init.push(ls.last()));
        init.lemma_filter_push(ls.last(), |n: Seq<char>| is_consumed(n));
        if ls.contains(x) && x != ls.last() {
            let i = choose|i: int| 0 <= i < ls.len() && ls[i] == x;
            assert(init[i] == x);
        }
    }
}

/// An acknowledgment deletes exactly the consumed items: the targets planned
/// from any listing of a spool are its consumed names, so carrying them out
/// leaves `after_flush` of it.
pub proof fn law_flush_plan_matches(ls: Seq<Seq<char>>, d: SpoolModel)
    requires
        lists(ls, d),
    ensures
        consumed_names(ls).to_set() == consumed_items(d),
{
    assert forall|x: Seq<char>| consumed_names(ls).to_set().contains(x) <==> consumed_items(d).contains(x) by {
        lemma_consumed_names_contains(ls, x);
        assert(ls.to_set().contains(x) == ls.contains(x));
    }
    assert(consumed_names(ls).to_set() =~= consumed_items(d));
}

/// A recovery restores exactly the consumed items: each rename planned from a
/// listing goes from a consumed item to the visible name it was taken from,
/// and every consumed item has a rename.
pub proof fn law_recover_plan_matches(ls: Seq<Seq<char>>, d: SpoolModel)
    requires
        lists(ls, d),
    ensures
        forall|k: int|
            0 <= k < recovery_moves(ls).len() ==> {
                let (c, v) = #[trigger] recovery_moves(ls)[k];
                &&& consumed_items(d).contains(c)
                &&& is_visible(v)
                &&& consumed_of(v) == c
                &&& restores_to(d, v)
            },
        forall|c: Seq<char>|
            #[trigger] consumed_items(d).contains(c) ==> exists|k: int|
                0 <= k < recovery_moves(ls).len() && recovery_moves(ls)[k] == (c, restored_of(c)),
{
    let cn = consumed_names(ls);
    law_flush_plan_matches(ls, d);
    assert forall|k: int| 0 <= k < recovery_moves(ls).len() implies {
        let (c, v) = #[trigger] recovery_moves(ls)[k];
        &&& consumed_items(d).contains(c)
        &&& is_visible(v)
        &&& consumed_of(v) == c
        &&& restores_to(d, v)
    } by {
        assert(cn.to_set().contains(cn[k]));
        lemma_consumed_round_trip(cn[k], cn[k]);
    }
    assert forall|c: Seq<char>| #[trigger] consumed_items(d).contains(c) implies exists|k: int|
        0 <= k < recovery_moves(ls).len() && recovery_moves(ls)[k] == (c, restored_of(c)) by {
        assert(cn.to_set().contains(c));
        let k = choose|k: int| 0 <= k < cn.len() && cn[k] == c;
        assert(recovery_moves(ls)[k] == (c, restored_of(c)));
    }
}

/// Draining: where each of the items `vs` was visible when a consumer took
/// it, they are distinct items of the spool, the visible items left are
/// the others, and on a finite spool their number is what was visible less
/// the number taken; once as many were taken as were visible, none is left.
pub proof fn law_pops_drain(d: SpoolModel, vs: Seq<Seq<char>>)
    requires
        forall|k: int|
            0 <= k < vs.len() ==> visible_items(after_pops(d, vs.take(k))).contains(#[trigger] vs[k]),
    ensures
        vs.no_duplicates(),
        vs.to_set().subset_of(visible_items(d)),
        visible_items(after_pops(d, vs)) == visible_items(d).difference(vs.to_set()),
        d.dom().finite() ==> after_pops(d, vs).dom().finite(),
        d.dom().finite() ==> vs.len() + visible_items(after_pops(d, vs)).len() == visible_items(d).len(),
        d.dom().finite() && vs.len() == visible_items(d).len() ==> visible_items(after_pops(d, vs)).is_empty(),
    decreases vs.len(),
{
    if vs.len() == 0 {
        assert(vs.to_set() =~= Set::<Seq<char>>::empty());
        assert(visible_items(d).difference(vs.to_set()) =~= visible_items(d));
    } else {
        let init = vs.drop_last();
        let last = vs.last();
        let n = vs.len() - 1;
        assert forall|k: int| 0 <= k < init.len() implies visible_items(after_pops(d, init.take(k))).contains(
            #[trigger] init[k],
        ) by {
            assert(init.take(k) =~= vs.take(k));
            assert(init[k] == vs[k]);
        }
        law_pops_drain(d, init);
        let mid = after_pops(d, init);
        assert(vs.take(n) =~= init);
        assert(visible_items(mid).contains(last));
        law_pop_takes_one(mid, last);
        assert(vs =~= init.push(last));
        init.lemma_push_to_set_commute(last);
        assert(!init.to_set().contains(last));
        assert forall|i: int, j: int| 0 <= i < vs.len() && 0 <= j < vs.len() && i != j implies vs[i] != vs[j] by {
            if i == n {
                assert(init.to_set().contains(init[j]));
            } else if j == n {
                assert(init.to_set().contains(init[i]));
            }
        }
        assert(visible_items(after_pops(d, vs)) =~= visible_items(d).difference(vs.to_set()));
        if d.dom().finite() {
            mid.dom().lemma_len_filter(|x: Seq<char>| is_visible(x));
        }
        if d.dom().finite() && vs.len() == visible_items(d).len() {
            after_pops(d, vs).dom().lemma_len_filter(|x: Seq<char>| is_visible(x));
        }
    }
}

} // verus!
