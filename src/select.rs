//! The decisions taken on a listing of the spool directory: which item a
//! consumer gets, and which files an acknowledgment or a recovery touches.
use vstd::prelude::*;
use crate::name::{
    consumed_name, is_consumed, is_plain_name, is_visible, item_name, law_names_follow_counter,
    lex_less, lex_lt, lemma_lex_transitive, restored_name, restored_of,
};

verus! {

/// The consumed names of a listing, in listing order.
pub open spec fn consumed_names(ns: Seq<Seq<char>>) -> Seq<Seq<char>> {
    ns.filter(|n: Seq<char>| is_consumed(n))
}

/// The renames that restore every consumed item of a listing: from the
/// consumed name to the visible one, in listing order.
pub open spec fn recovery_moves(ns: Seq<Seq<char>>) -> Seq<(Seq<char>, Seq<char>)> {
    consumed_names(ns).map_values(|n: Seq<char>| (n, restored_of(n)))
}

/// Whether no name of the listing is visible.
pub open spec fn none_visible(ns: Seq<Seq<char>>) -> bool {
    forall|j: int| 0 <= j < ns.len() ==> !is_visible(#[trigger] ns[j])
}

/// The fast policy: the first visible name in listing order.
pub fn select_first(names: &Vec<String>) -> (r: Option<usize>)
    ensures
        match r {
            Some(i) => {
                &&& i < names.len()
                &&& is_visible(names[i as int]@)
                &&& forall|j: int| 0 <= j < i ==> !is_visible(#[trigger] names[j]@)
            },
            None => forall|j: int| 0 <= j < names.len() ==> !is_visible(#[trigger] names[j]@),
        },
{
    let mut i: usize = 0;
    while i < names.len()
        invariant
            i <= names.len(),
            forall|j: int| 0 <= j < i ==> !is_visible(#[trigger] names[j]@),
        decreases names.len() - i,
    {
        if is_plain_name(names[i].as_str()) {
            return Some(i);
        }
        i = i + 1;
    }
    None
}

/// The fair policy: the visible name that comes first in lexicographic
/// order; among equal names, the first in listing order.
pub fn select_oldest(names: &Vec<String>) -> (r: Option<usize>)
    ensures
        match r {
            Some(i) => {
                &&& i < names.len()
                &&& is_visible(names[i as int]@)
                &&& forall|j: int|
                    0 <= j < names.len() && is_visible(#[trigger] names[j]@) ==> !lex_lt(
                        names[j]@,
                        names[i as int]@,
                    )
            },
            None => forall|j: int| 0 <= j < names.len() ==> !is_visible(#[trigger] names[j]@),
        },
{
    let mut best: Option<usize> = None;
    let mut i: usize = 0;
    while i < names.len()
        invariant
            i <= names.len(),
            match best {
                Some(b) => {
                    &&& b < i
                    &&& is_visible(names[b as int]@)
                    &&& forall|j: int|
                        0 <= j < i && is_visible(#[trigger] names[j]@) ==> !lex_lt(
                            names[j]@,
                            names[b as int]@,
                        )
                },
                None => forall|j: int| 0 <= j < i ==> !is_visible(#[trigger] names[j]@),
            },
        decreases names.len() - i,
    {
        if is_plain_name(names[i].as_str()) {
            match best {
                None => {
                    best = Some(i);
                    proof {
                        crate::name::lemma_lex_irreflexive(names[i as int]@);
                    }
                },
                Some(b) => {
                    if lex_less(names[i].as_str(), names[b].as_str()) {
                        proof {
                            crate::name::lemma_lex_irreflexive(names[i as int]@);
                            assert forall|j: int|
                                0 <= j < i && is_visible(#[trigger] names[j]@) implies !lex_lt(
                                names[j]@,
                                names[i as int]@,
                            ) by {
                                if lex_lt(names[j]@, names[i as int]@) {
                                    lemma_lex_transitive(
                                        names[j]@,
                                        names[i as int]@,
                                        names[b as int]@,
                                    );
                                }
                            }
                        }
                        best = Some(i);
                    }
                },
            }
        }
        i = i + 1;
    }
    best
}

/// The names that an acknowledgment deletes: every consumed name of the
/// listing.
pub fn flush_targets(names: &Vec<String>) -> (r: Vec<String>)
    ensures
        r.deep_view() == consumed_names(names.deep_view()),
{
    let mut r: Vec<String> = Vec::new();
    let mut i: usize = 0;
    while i < names.len()
        invariant
            i <= names.len(),
            r.deep_view() == consumed_names(names.deep_view().take(i as int)),
        decreases names.len() - i,
    {
        let ghost ns = names.deep_view();
        proof {
            assert(ns.take(i + 1) =~= ns.take(i as int).push(ns[i as int]));
            ns.take(i as int).lemma_filter_push(ns[i as int], |n: Seq<char>| is_consumed(n));
        }
        if crate::name::item_state(names[i].as_str()) == crate::name::ItemState::Consumed {
            r.push(names[i].clone());
            assert(r.deep_view() =~= consumed_names(ns.take(i + 1)));
        }
        i = i + 1;
    }
    assert(names.deep_view().take(names.len() as int) =~= names.deep_view());
    r
}

/// The renames that a recovery makes: each consumed name of the listing back
/// to its visible name.
pub fn recover_moves(names: &Vec<String>) -> (r: Vec<(String, String)>)
    ensures
        r.deep_view() == recovery_moves(names.deep_view()),
{
    let mut r: Vec<(String, String)> = Vec::new();
    let mut i: usize = 0;
    while i < names.len()
        invariant
            i <= names.len(),
            r.deep_view() == recovery_moves(names.deep_view().take(i as int)),
        decreases names.len() - i,
    {
        let ghost ns = names.deep_view();
        proof {
            assert(ns.take(i + 1) =~= ns.take(i as int).push(ns[i as int]));
            ns.take(i as int).lemma_filter_push(ns[i as int], |n: Seq<char>| is_consumed(n));
        }
        match restored_name(names[i].as_str()) {
            Some(v) => {
                let ghost cn = consumed_names(ns.take(i as int));
                let ghost old_r = r.deep_view();
                r.push((names[i].clone(), v));
                assert(consumed_names(ns.take(i + 1)) == cn.push(ns[i as int]));
                assert(cn.push(ns[i as int]).map_values(|n: Seq<char>| (n, restored_of(n)))
                    =~= cn.map_values(|n: Seq<char>| (n, restored_of(n))).push(
                    (ns[i as int], restored_of(ns[i as int])),
                ));
                assert(r.deep_view() =~= old_r.push((ns[i as int], restored_of(ns[i as int]))));
                assert(r.deep_view() =~= recovery_moves(ns.take(i + 1)));
            },
            None => {
                assert(r.deep_view() =~= recovery_moves(ns.take(i + 1)));
            },
        }
        i = i + 1;
    }
    assert(names.deep_view().take(names.len() as int) =~= names.deep_view());
    r
}

/// What a consumer takes from a listing under the fast policy: the visible
/// name and the consumed name to rename it to.
pub fn pop_rename(names: &Vec<String>) -> (r: Option<(String, String)>)
    ensures
        match r {
            Some((v, c)) => exists|i: int|
                {
                    &&& 0 <= i < names.len()
                    &&& v@ == names[i]@
                    &&& is_visible(v@)
                    &&& c@ == crate::name::consumed_of(v@)
                    &&& forall|j: int| 0 <= j < i ==> !is_visible(#[trigger] names[j]@)
                },
            None => forall|j: int| 0 <= j < names.len() ==> !is_visible(#[trigger] names[j]@),
        },
{
    match select_first(names) {
        Some(i) => {
            let v = names[i].clone();
            let c = consumed_name(v.as_str());
            Some((v, c))
        },
        None => None,
    }
}

/// The fair policy delivers in the order of writing: where every visible name
/// of a listing was written by one handle, with counter `counters[j]` and
/// nonce `nonces[j]`, the name that the policy may choose (no visible name
/// sorts before it) carries the smallest counter of them all.
pub proof fn law_fair_policy_is_fifo(
    ls: Seq<Seq<char>>,
    counters: Seq<u64>,
    nonces: Seq<Seq<char>>,
    i: int,
)
    requires
        counters.len() == ls.len(),
        nonces.len() == ls.len(),
        forall|j: int|
            0 <= j < ls.len() && is_visible(#[trigger] ls[j]) ==> ls[j] == item_name(
                counters[j],
                nonces[j],
            ),
        0 <= i < ls.len(),
        is_visible(ls[i]),
        forall|j: int| 0 <= j < ls.len() && is_visible(#[trigger] ls[j]) ==> !lex_lt(ls[j], ls[i]),
    ensures
        forall|j: int| 0 <= j < ls.len() && is_visible(#[trigger] ls[j]) ==> counters[i] <= counters[j],
{
    assert forall|j: int| 0 <= j < ls.len() && is_visible(#[trigger] ls[j]) implies counters[i]
        <= counters[j] by {
        if counters[j] < counters[i] {
            law_names_follow_counter(counters[j], counters[i], nonces[j], nonces[i]);
        }
    }
}

} // verus!
