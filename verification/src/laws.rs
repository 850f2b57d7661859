//! Laws of the merge: what holds of its result for whole families of
//! inputs.

use crate::global_type::GlobalSpec;
use crate::model::{
    all_end_or_x, can_unfold, child, closing_result, conts_of, conts_result, dual_pairs,
    duals_result, duals_upto, find_label, is_dual, lemma_find_label, merge_result,
    partner_ok, reduce_result, row_duals, share_label, state_result, valid_input, MergeError,
};
use crate::order::{
    lemma_role_lt_asymmetric, lemma_role_lt_irreflexive, lemma_role_lt_total,
    lemma_role_lt_transitive, role_lt,
};
use crate::parties::{
    ascending, assoc_from, initial, keys, lemma_assoc_from_ascending, lemma_rank_bounds,
    lemma_total_size_update, put, rank, total_size, PartiesSpec,
};
use crate::session_type::{size, well_formed, Label, LocalSpec, Role};
use vstd::prelude::*;

verus! {

/// What an association list holds after a participant was given a value:
/// that participant with that value, and what it held before for the
/// other participants.
pub proof fn lemma_put_members<V>(s: Seq<(Role, V)>, k: Role, v: V)
    requires
        ascending(keys(s)),
    ensures
        forall|e: (Role, V)|
            #[trigger] put(s, k, v).contains(e) <==> (e == (k, v) || (s.contains(e) && e.0 != k)),
{
    let ks = keys(s);
    let r = rank(ks, k);
    let out = put(s, k, v);
    lemma_rank_bounds(ks, k, 0);
    assert forall|i: int| 0 <= i < s.len() && i != r implies (#[trigger] s[i]).0 != k by {
        assert(ks[i] == s[i].0);
        if i < r {
            lemma_role_lt_irreflexive(k);
        } else {
            assert(ks[r] == s[r].0);
            lemma_role_lt_total(ks[r], k);
            if ks[r] == k {
                lemma_role_lt_irreflexive(k);
            } else {
                lemma_role_lt_transitive(k, ks[r], ks[i]);
                lemma_role_lt_irreflexive(k);
            }
        }
    }
    assert forall|e: (Role, V)| #[trigger] out.contains(e) implies (e == (k, v) || (s.contains(e)
        && e.0 != k)) by {
        let i = choose|i: int| 0 <= i < out.len() && out[i] == e;
        if 0 <= r < s.len() && s[r].0 == k {
            if i != r {
                assert(s[i] == e);
            }
        } else {
            if i < r {
                assert(s[i] == e);
            } else if i > r {
                assert(s[i - 1] == e);
                if i - 1 == r {
                    assert(ks[r] == s[r].0);
                }
            }
        }
    }
    assert forall|e: (Role, V)| (e == (k, v) || (s.contains(e) && e.0 != k)) implies #[trigger] out.contains(
        e,
    ) by {
        if e == (k, v) {
            assert(out[r] == e);
        } else {
            let i = choose|i: int| 0 <= i < s.len() && s[i] == e;
            if 0 <= r < s.len() && s[r].0 == k {
                assert(out[i] == e);
            } else {
                if i < r {
                    assert(out[i] == e);
                } else {
                    assert(out[i + 1] == e);
                }
            }
        }
    }
}

/// Every entry of the association list built from `l` is an entry of `l`.
pub proof fn lemma_assoc_from_within<V>(l: Seq<(Role, V)>)
    ensures
        forall|e: (Role, V)| #[trigger] assoc_from(l).contains(e) ==> l.contains(e),
    decreases l.len(),
{
    if l.len() > 0 {
        let init = l.drop_last();
        lemma_assoc_from_within(init);
        lemma_assoc_from_ascending(init);
        lemma_put_members(assoc_from(init), l.last().0, l.last().1);
        assert forall|e: (Role, V)| #[trigger] assoc_from(l).contains(e) implies l.contains(e) by {
            if e == l.last() {
                assert(l[l.len() - 1] == e);
            } else {
                assert(assoc_from(init).contains(e));
                assert(init.contains(e));
                let i = choose|i: int| 0 <= i < init.len() && init[i] == e;
                assert(l[i] == e);
            }
        }
    }
}

/// No participant occurs twice in the list.
pub open spec fn distinct_keys<V>(l: Seq<(Role, V)>) -> bool {
    forall|i: int, j: int| 0 <= i < j < l.len() ==> l[i].0 != l[j].0
}

/// Where no participant occurs twice in `l`, the association list built
/// from `l` holds exactly the entries of `l`.
pub proof fn lemma_assoc_from_members<V>(l: Seq<(Role, V)>)
    requires
        distinct_keys(l),
    ensures
        forall|e: (Role, V)| #[trigger] assoc_from(l).contains(e) <==> l.contains(e),
    decreases l.len(),
{
    lemma_assoc_from_within(l);
    if l.len() > 0 {
        let init = l.drop_last();
        lemma_assoc_from_members(init);
        lemma_assoc_from_ascending(init);
        lemma_put_members(assoc_from(init), l.last().0, l.last().1);
        assert forall|e: (Role, V)| l.contains(e) implies #[trigger] assoc_from(l).contains(e) by {
            let i = choose|i: int| 0 <= i < l.len() && l[i] == e;
            if i < l.len() - 1 {
                assert(init[i] == e);
                assert(init.contains(e));
                assert(e.0 != l.last().0);
            }
        }
    }
}

/// Two association lists in the order of participants that hold the same
/// entries are the same list.
pub proof fn lemma_ascending_unique<V>(a: Seq<(Role, V)>, b: Seq<(Role, V)>)
    requires
        ascending(keys(a)),
        ascending(keys(b)),
        forall|e: (Role, V)| a.contains(e) <==> b.contains(e),
    ensures
        a == b,
    decreases a.len(),
{
    if a.len() == 0 {
        if b.len() > 0 {
            assert(b.contains(b[0]));
            assert(a.contains(b[0]));
        }
        assert(a =~= b);
    } else {
        let x = a.last();
        assert(a.contains(x));
        assert(b.contains(x));
        let y = b.last();
        assert(b.contains(y));
        assert(a.contains(y));
        let i = choose|i: int| 0 <= i < b.len() && b[i] == x;
        let j = choose|j: int| 0 <= j < a.len() && a[j] == y;
        assert(keys(a)[j] == y.0 && keys(a)[a.len() - 1] == x.0);
        assert(keys(b)[i] == x.0 && keys(b)[b.len() - 1] == y.0);
        if j < a.len() - 1 {
            // y comes before x in a
            assert(role_lt(y.0, x.0));
            if i < b.len() - 1 {
                assert(role_lt(x.0, y.0));
                lemma_role_lt_asymmetric(x.0, y.0);
            } else {
                lemma_role_lt_irreflexive(x.0);
            }
        }
        assert(x == y);
        let a0 = a.drop_last();
        let b0 = b.drop_last();
        assert(keys(a0) =~= keys(a).drop_last());
        assert(keys(b0) =~= keys(b).drop_last());
        assert forall|e: (Role, V)| a0.contains(e) <==> b0.contains(e) by {
            if a0.contains(e) {
                let p = choose|p: int| 0 <= p < a0.len() && a0[p] == e;
                assert(a[p] == e);
                assert(a.contains(e));
                assert(keys(a)[p] == e.0);
                assert(role_lt(e.0, x.0));
                lemma_role_lt_irreflexive(x.0);
                let q = choose|q: int| 0 <= q < b.len() && b[q] == e;
                assert(b0[q] == e);
            }
            if b0.contains(e) {
                let p = choose|p: int| 0 <= p < b0.len() && b0[p] == e;
                assert(b[p] == e);
                assert(b.contains(e));
                assert(keys(b)[p] == e.0);
                assert(role_lt(e.0, y.0));
                lemma_role_lt_irreflexive(y.0);
                let q = choose|q: int| 0 <= q < a.len() && a[q] == e;
                assert(a0[q] == e);
            }
        }
        lemma_ascending_unique(a0, b0);
        assert(a =~= a0.push(x));
        assert(b =~= b0.push(y));
    }
}

/// Two lists that name no participant twice and hold the same
/// participants with the same local types start the merge in the same
/// state.
pub proof fn lemma_same_entries(l1: Seq<(Role, LocalSpec)>, l2: Seq<(Role, LocalSpec)>)
    requires
        distinct_keys(l1),
        distinct_keys(l2),
        forall|e: (Role, LocalSpec)| l1.contains(e) <==> l2.contains(e),
    ensures
        initial(l1) == initial(l2),
{
    lemma_assoc_from_members(l1);
    lemma_assoc_from_members(l2);
    lemma_assoc_from_ascending(l1);
    lemma_assoc_from_ascending(l2);
    assert forall|e: (Role, LocalSpec)| assoc_from(l1).contains(e) <==> assoc_from(l2).contains(e) by {
        assert(assoc_from(l1).contains(e) <==> l1.contains(e));
        assert(assoc_from(l2).contains(e) <==> l2.contains(e));
    }
    lemma_ascending_unique(assoc_from(l1), assoc_from(l2));
}

/// The order in which the participants are listed does not matter: a
/// list that names no participant twice, and the same participants with
/// the same local types listed in any other order, merge into the same
/// global type, or fail for the same reason.
pub proof fn lemma_order_of_participants(l1: Seq<(Role, LocalSpec)>, l2: Seq<(Role, LocalSpec)>)
    requires
        distinct_keys(l1),
        l1.to_multiset() == l2.to_multiset(),
    ensures
        initial(l1) == initial(l2),
        merge_result(initial(l1)) == merge_result(initial(l2)),
{
    l1.to_multiset_ensures();
    l2.to_multiset_ensures();
    assert(l1.no_duplicates()) by {
        assert forall|i: int, j: int| 0 <= i < l1.len() && 0 <= j < l1.len() && i != j implies l1[i]
            != l1[j] by {
            if i < j {
                assert(l1[i].0 != l1[j].0);
            } else {
                assert(l1[j].0 != l1[i].0);
            }
        }
    }
    l1.lemma_multiset_has_no_duplicates();
    l2.lemma_multiset_has_no_duplicates_conv();
    assert forall|i: int, j: int| 0 <= i < j < l2.len() implies l2[i].0 != l2[j].0 by {
        assert(l2.contains(l2[i]));
        assert(l2.contains(l2[j]));
        assert(l2.to_multiset().count(l2[i]) > 0);
        assert(l2.to_multiset().count(l2[j]) > 0);
        assert(l1.to_multiset().count(l2[i]) > 0);
        assert(l1.to_multiset().count(l2[j]) > 0);
        assert(l1.contains(l2[i]));
        assert(l1.contains(l2[j]));
        let p = choose|p: int| 0 <= p < l1.len() && l1[p] == l2[i];
        let q = choose|q: int| 0 <= q < l1.len() && l1[q] == l2[j];
        assert(l2[i] != l2[j]);
        if p < q {
            assert(l1[p].0 != l1[q].0);
        } else {
            assert(l1[q].0 != l1[p].0);
        }
    }
    assert forall|e: (Role, LocalSpec)| l1.contains(e) <==> l2.contains(e) by {
        assert(l1.contains(e) <==> l1.to_multiset().count(e) > 0);
        assert(l2.contains(e) <==> l2.to_multiset().count(e) > 0);
    }
    lemma_same_entries(l1, l2);
}

/// A state with one more participant has the nodes of that participant
/// more.
proof fn lemma_total_size_insert(ps: Seq<(Role, LocalSpec)>, i: int, e: (Role, LocalSpec))
    requires
        0 <= i <= ps.len(),
    ensures
        total_size(ps.insert(i, e)) == total_size(ps) + size(e.1),
    decreases ps.len(),
{
    if i == ps.len() {
        assert(ps.insert(i, e).drop_last() =~= ps);
    } else {
        lemma_total_size_insert(ps.drop_last(), i, e);
        assert(ps.insert(i, e).drop_last() =~= ps.drop_last().insert(i, e));
    }
}

/// The state in which the merge starts has no more nodes than the local
/// types that are listed.
pub proof fn lemma_initial_size(l: Seq<(Role, LocalSpec)>)
    ensures
        total_size(initial(l).parties) <= total_size(l),
    decreases l.len(),
{
    if l.len() > 0 {
        let before = assoc_from(l.drop_last());
        let k = l.last().0;
        let v = l.last().1;
        lemma_initial_size(l.drop_last());
        let r = rank(keys(before), k);
        lemma_rank_bounds(keys(before), k, 0);
        if 0 <= r < before.len() && before[r].0 == k {
            lemma_total_size_update(before, r, (k, v));
        } else {
            lemma_total_size_insert(before, r, (k, v));
        }
    }
}

/// End closure: participants that have all reached `End`, each with a
/// name, merge into `End`.
pub proof fn lemma_end_closure(l: Seq<(Role, LocalSpec)>)
    requires
        forall|i: int| 0 <= i < l.len() ==> (#[trigger] l[i]).0 is Some && l[i].1 is End,
    ensures
        merge_result(initial(l)) == Ok::<GlobalSpec, MergeError>(GlobalSpec::End),
{
    let s = initial(l);
    lemma_assoc_from_within(l);
    assert forall|i: int| 0 <= i < s.parties.len() implies (#[trigger] s.parties[i]).0 is Some
        && s.parties[i].1 is End by {
        assert(s.parties.contains(s.parties[i]));
        assert(l.contains(s.parties[i]));
    }
    assert forall|i: int| 0 <= i < s.parties.len() implies well_formed((#[trigger] s.parties[i]).1) by {
        assert(crate::session_type::rec_ids(s.parties[i].1) =~= Seq::empty());
    }
}

/// No pair is tried where no participant is a receiver.
pub proof fn lemma_no_receiver_no_duals(s: PartiesSpec, m: nat)
    requires
        forall|i: int| 0 <= i < s.parties.len() ==> !((#[trigger] s.parties[i]).1 is Branch),
    ensures
        duals_upto(s, m) == Seq::<(int, int)>::empty(),
    decreases m,
{
    if m > 0 {
        lemma_no_receiver_no_duals(s, (m - 1) as nat);
        lemma_row_without_receiver(s, m - 1, s.parties.len());
        assert(duals_upto(s, m) =~= Seq::<(int, int)>::empty());
    }
}

/// A sender is paired with no one where no participant is a receiver.
proof fn lemma_row_without_receiver(s: PartiesSpec, i: int, m: nat)
    requires
        forall|i: int| 0 <= i < s.parties.len() ==> !((#[trigger] s.parties[i]).1 is Branch),
    ensures
        row_duals(s, i, m) == Seq::<(int, int)>::empty(),
    decreases m,
{
    if m > 0 {
        lemma_row_without_receiver(s, i, (m - 1) as nat);
        if 0 <= m - 1 < s.parties.len() {
            assert(!(s.parties[m - 1].1 is Branch));
        }
    }
}

/// Label discipline: where one participant offers labels and all others
/// have reached `End`, nobody accepts a label, and the merge fails with
/// `UnmatchedLabel`.
pub proof fn lemma_label_discipline(s: PartiesSpec, i: int)
    requires
        valid_input(s),
        0 <= i < s.parties.len(),
        s.parties[i].1 is Select,
        forall|j: int| 0 <= j < s.parties.len() && j != i ==> (#[trigger] s.parties[j]).1 is End,
    ensures
        merge_result(s) == Err::<GlobalSpec, MergeError>(MergeError::UnmatchedLabel),
{
    assert(!s.is_end_state()) by {
        assert(!(s.parties[i].1 is End));
    }
    assert(!can_unfold(s)) by {
        assert(!(s.parties[i].1 is RecX || s.parties[i].1 is End));
    }
    lemma_no_receiver_no_duals(s, s.parties.len());
    assert(duals_result(s, dual_pairs(s), 0) == Err::<GlobalSpec, Option<MergeError>>(None));
    assert(!all_end_or_x(s)) by {
        assert(!(s.parties[i].1 is End || s.parties[i].1 is X));
    }
}

/// The state after the sender at `si` and the receiver at `ri` have
/// exchanged the label that the sender offers at position `k`.
pub open spec fn step_state(s: PartiesSpec, si: int, ri: int, k: int) -> PartiesSpec {
    let sends = conts_of(s.parties[si].1);
    let recvs = conts_of(s.parties[ri].1);
    child(s, si, ri, sends[k].1, recvs[find_label(recvs, sends[k].0)->Some_0].1)
}

/// The labels that the sender at `si` offers, each with the protocol
/// given for it in `gs`.
pub open spec fn labelled(s: PartiesSpec, si: int, gs: Seq<GlobalSpec>) -> Seq<(Label, GlobalSpec)> {
    Seq::new(gs.len(), |k: int| (conts_of(s.parties[si].1)[k].0, gs[k]))
}

/// Where the receiver accepts every label that the sender offers from
/// position `k` on, and every state after such a label has a protocol,
/// the reduction gives those labels with those protocols.
pub proof fn lemma_conts_result(s: PartiesSpec, si: int, ri: int, k: nat, gs: Seq<GlobalSpec>)
    requires
        0 <= si < s.parties.len(),
        0 <= ri < s.parties.len(),
        si != ri,
        gs.len() == conts_of(s.parties[si].1).len(),
        k <= gs.len(),
        forall|x: int|
            k <= x < gs.len() ==> find_label(
                conts_of(s.parties[ri].1),
                (#[trigger] conts_of(s.parties[si].1)[x]).0,
            ) is Some && state_result(step_state(s, si, ri, x)) == Ok::<GlobalSpec, MergeError>(gs[x]),
    ensures
        conts_result(s, si, ri, k) == Ok::<Seq<(Label, GlobalSpec)>, MergeError>(
            labelled(s, si, gs).skip(k as int),
        ),
    decreases gs.len() - k,
{
    let sends = conts_of(s.parties[si].1);
    if k < gs.len() {
        lemma_conts_result(s, si, ri, k + 1, gs);
        assert(find_label(conts_of(s.parties[ri].1), sends[k as int].0) is Some);
        assert(state_result(step_state(s, si, ri, k as int)) == Ok::<GlobalSpec, MergeError>(
            gs[k as int],
        ));
        assert(seq![(sends[k as int].0, gs[k as int])] + labelled(s, si, gs).skip(k as int + 1) =~= labelled(
            s,
            si,
            gs,
        ).skip(k as int));
    } else {
        assert(labelled(s, si, gs).skip(k as int) =~= Seq::empty());
    }
}

/// Between two participants of which one is a sender and the other a
/// receiver that shares a label with it, exactly one pair is tried.
pub proof fn lemma_two_party_duals(s: PartiesSpec, si: int, ri: int)
    requires
        s.parties.len() == 2,
        is_dual(s, si, ri),
    ensures
        dual_pairs(s) == seq![(si, ri)],
{
    reveal_with_fuel(row_duals, 3);
    reveal_with_fuel(duals_upto, 3);
    assert(!is_dual(s, 0, 0));
    assert(!is_dual(s, 1, 1));
    assert(!is_dual(s, ri, si));
    assert(dual_pairs(s) =~= seq![(si, ri)]);
}

/// Branch preservation: where one of two participants offers labels that
/// the other accepts, each naming the other as its partner or nobody,
/// and the state after each label has a protocol, the merge gives the
/// choice from the sender to the receiver that has exactly the labels
/// offered, in the order in which they are offered, each with the
/// protocol of the state after it.
pub proof fn lemma_branch_preservation(s: PartiesSpec, si: int, ri: int, gs: Seq<GlobalSpec>)
    requires
        s.parties.len() == 2,
        0 <= si < 2,
        0 <= ri < 2,
        s.parties[si].1 is Select,
        s.parties[ri].1 is Branch,
        partner_ok(s.parties[si].1->Select_0, s.parties[ri].0),
        partner_ok(s.parties[ri].1->Branch_0, s.parties[si].0),
        gs.len() == conts_of(s.parties[si].1).len(),
        gs.len() > 0,
        forall|x: int|
            0 <= x < gs.len() ==> find_label(
                conts_of(s.parties[ri].1),
                (#[trigger] conts_of(s.parties[si].1)[x]).0,
            ) is Some && state_result(step_state(s, si, ri, x)) == Ok::<GlobalSpec, MergeError>(gs[x]),
    ensures
        state_result(s) == Ok::<GlobalSpec, MergeError>(
            GlobalSpec::Select(s.parties[si].0, s.parties[ri].0, labelled(s, si, gs)),
        ),
        valid_input(s) ==> merge_result(s) == state_result(s),
{
    let sends = conts_of(s.parties[si].1);
    let recvs = conts_of(s.parties[ri].1);
    assert(!s.is_end_state()) by {
        assert(!(s.parties[si].1 is End));
    }
    assert(!can_unfold(s)) by {
        assert(!(s.parties[si].1 is RecX || s.parties[si].1 is End));
    }
    assert(share_label(sends, recvs)) by {
        assert(find_label(recvs, sends[0].0) is Some);
        lemma_find_label(recvs, sends[0].0, 0);
        let m = find_label(recvs, sends[0].0)->Some_0;
        assert(sends[0].0 == recvs[m].0);
    }
    lemma_two_party_duals(s, si, ri);
    lemma_conts_result(s, si, ri, 0, gs);
    assert(labelled(s, si, gs).skip(0) =~= labelled(s, si, gs));
    assert(reduce_result(s, si, ri) == Ok::<GlobalSpec, MergeError>(
        GlobalSpec::Select(s.parties[si].0, s.parties[ri].0, labelled(s, si, gs)),
    ));
    let dp = dual_pairs(s);
    assert(dp.len() == 1 && dp[0] == (si, ri));
    assert(duals_result(s, dp, 0) == Ok::<GlobalSpec, Option<MergeError>>(
        GlobalSpec::Select(s.parties[si].0, s.parties[ri].0, labelled(s, si, gs)),
    ));
}

/// The association list of two different participants holds both, the
/// one that comes first in the order of participants at its head.
pub proof fn lemma_assoc_from_two<V>(a: (Role, V), b: (Role, V))
    requires
        a.0 != b.0,
    ensures
        assoc_from(seq![a, b]) == (if role_lt(a.0, b.0) {
            seq![a, b]
        } else {
            seq![b, a]
        }),
{
    let l = seq![a, b];
    assert(l.drop_last() =~= seq![a]);
    assert(seq![a].drop_last() =~= Seq::<(Role, V)>::empty());
    reveal_with_fuel(assoc_from, 3);
    reveal_with_fuel(crate::parties::rank_from, 3);
    let one = put(Seq::<(Role, V)>::empty(), a.0, a.1);
    assert(keys(Seq::<(Role, V)>::empty()) =~= Seq::<Role>::empty());
    assert(one =~= seq![a]);
    assert(keys(one) =~= seq![a.0]);
    let two = put(one, b.0, b.1);
    if role_lt(a.0, b.0) {
        assert(two =~= seq![a, b]);
    } else {
        assert(two =~= seq![b, a]);
    }
    assert(assoc_from(l) == two);
}

/// Message round-trip: a participant that sends one label to another and
/// ends, and that other, which receives the label from the first and
/// ends, merge into the one message from the first to the second.
pub proof fn lemma_message_round_trip(a: Role, b: Role, label: Label)
    requires
        a is Some,
        b is Some,
        a != b,
    ensures
        merge_result(
            initial(
                seq![
                    (a, LocalSpec::Select(b, seq![(label, LocalSpec::End)])),
                    (b, LocalSpec::Branch(a, seq![(label, LocalSpec::End)])),
                ],
            ),
        ) == Ok::<GlobalSpec, MergeError>(
            GlobalSpec::Select(a, b, seq![(label, GlobalSpec::End)]),
        ),
{
    let ta = LocalSpec::Select(b, seq![(label, LocalSpec::End)]);
    let tb = LocalSpec::Branch(a, seq![(label, LocalSpec::End)]);
    let s = initial(seq![(a, ta), (b, tb)]);
    lemma_assoc_from_two((a, ta), (b, tb));
    let si: int = if role_lt(a, b) { 0 } else { 1 };
    let ri: int = 1 - si;
    assert(s.parties[si] == (a, ta));
    assert(s.parties[ri] == (b, tb));
    assert(valid_input(s)) by {
        reveal_with_fuel(crate::session_type::sound_in, 2);
        reveal_with_fuel(crate::session_type::rec_ids, 2);
        reveal_with_fuel(crate::session_type::conts_rec_ids, 2);
        let conts = seq![(label, LocalSpec::End)];
        assert(conts.drop_last() =~= Seq::empty());
        assert(crate::session_type::conts_rec_ids(conts) =~= Seq::empty());
        assert(well_formed(ta));
        assert(well_formed(tb));
        assert forall|i: int| 0 <= i < s.parties.len() implies (#[trigger] s.parties[i]).0 is Some
            && well_formed(s.parties[i].1) by {
            if i == si {
            } else {
                assert(i == ri);
            }
        }
    }
    let gs = seq![GlobalSpec::End];
    assert(find_label(conts_of(tb), label) == Some(0int));
    assert(step_state(s, si, ri, 0).is_end_state());
    lemma_branch_preservation(s, si, ri, gs);
    assert(labelled(s, si, gs) =~= seq![(label, GlobalSpec::End)]);
}

/// The loop bodies `a` of the participant `ra` and `b` of the participant
/// `rb` mirror each other: where one offers labels the other accepts
/// exactly those labels, in whatever order, and the two go on as mirrors
/// after each label; where one ends the other ends, and where one goes
/// back to its binder `ida` the other goes back to its binder `idb`.
/// Neither holds a binder of its own.
pub open spec fn mirrored(a: LocalSpec, b: LocalSpec, ra: Role, rb: Role, ida: int, idb: int) -> bool
    decreases a,
{
    match (a, b) {
        (LocalSpec::End, LocalSpec::End) => true,
        (LocalSpec::X(x, false), LocalSpec::X(y, false)) => x == Some(ida) && y == Some(idb),
        (LocalSpec::Select(to, sends), LocalSpec::Branch(from, recvs)) => {
            &&& partner_ok(to, rb)
            &&& partner_ok(from, ra)
            &&& sends.len() > 0
            &&& crate::session_type::labels_unique(sends)
            &&& crate::session_type::labels_unique(recvs)
            &&& forall|j: int|
                0 <= j < recvs.len() ==> find_label(sends, (#[trigger] recvs[j]).0) is Some
            &&& forall|k: int|
                0 <= k < sends.len() ==> (find_label(recvs, (#[trigger] sends[k]).0) matches Some(m)
                    && mirrored(sends[k].1, recvs[m].1, ra, rb, ida, idb))
        },
        (LocalSpec::Branch(from, recvs), LocalSpec::Select(to, sends)) => {
            &&& partner_ok(to, ra)
            &&& partner_ok(from, rb)
            &&& sends.len() > 0
            &&& crate::session_type::labels_unique(sends)
            &&& crate::session_type::labels_unique(recvs)
            &&& forall|j: int|
                0 <= j < recvs.len() ==> find_label(sends, (#[trigger] recvs[j]).0) is Some
            &&& forall|k: int|
                0 <= k < sends.len() ==> (find_label(recvs, (#[trigger] sends[k]).0) matches Some(m)
                    && 0 <= m < recvs.len() && mirrored(recvs[m].1, sends[k].1, ra, rb, ida, idb))
        },
        _ => false,
    }
}

/// The protocol that the participant `ra` with the loop body `a` and the
/// participant `rb` with the mirror `b` of it follow inside the global
/// scope `g`: each choice goes from the one who offers the labels to the
/// other, with the labels in the order in which they are offered.
pub open spec fn protocol_of(a: LocalSpec, b: LocalSpec, ra: Role, rb: Role, g: int) -> GlobalSpec
    decreases a,
{
    match (a, b) {
        (LocalSpec::Select(_, sends), LocalSpec::Branch(_, recvs)) => GlobalSpec::Select(
            ra,
            rb,
            Seq::new(
                sends.len(),
                |k: int|
                    if 0 <= k < sends.len() {
                        (
                            sends[k].0,
                            protocol_of(
                                sends[k].1,
                                recvs[find_label(recvs, sends[k].0)->Some_0].1,
                                ra,
                                rb,
                                g,
                            ),
                        )
                    } else {
                        (sends[k].0, GlobalSpec::End)
                    },
            ),
        ),
        (LocalSpec::Branch(_, recvs), LocalSpec::Select(_, sends)) => GlobalSpec::Select(
            rb,
            ra,
            Seq::new(
                sends.len(),
                |k: int|
                    {
                        let m = find_label(recvs, sends[k].0)->Some_0;
                        if 0 <= m < recvs.len() {
                            (sends[k].0, protocol_of(recvs[m].1, sends[k].1, ra, rb, g))
                        } else {
                            (sends[k].0, GlobalSpec::End)
                        }
                    },
            ),
        ),
        (LocalSpec::X(_, _), _) => GlobalSpec::X(g),
        _ => GlobalSpec::End,
    }
}

/// Every recursion variable of the global type is `X(g)`, and the type
/// holds no binder.
pub open spec fn loops_to(t: GlobalSpec, g: int) -> bool
    decreases t,
{
    match t {
        GlobalSpec::Send(_, _, _, cont) => loops_to(*cont, g),
        GlobalSpec::Select(_, _, conts) => conts.len() > 0 && forall|k: int|
            0 <= k < conts.len() ==> loops_to((#[trigger] conts[k]).1, g),
        GlobalSpec::RecX(_, _) => false,
        GlobalSpec::X(id) => id == g,
        GlobalSpec::End => true,
    }
}

/// The protocol of mirrored loop bodies goes back to its own scope only.
pub proof fn lemma_protocol_loops(a: LocalSpec, b: LocalSpec, ra: Role, rb: Role, ida: int, idb: int, g: int)
    requires
        mirrored(a, b, ra, rb, ida, idb),
    ensures
        loops_to(protocol_of(a, b, ra, rb, g), g),
    decreases a,
{
    match (a, b) {
        (LocalSpec::Select(_, sends), LocalSpec::Branch(_, recvs)) => {
            let out = protocol_of(a, b, ra, rb, g)->Select_2;
            assert forall|k: int| 0 <= k < out.len() implies loops_to((#[trigger] out[k]).1, g) by {
                let m = find_label(recvs, sends[k].0)->Some_0;
                assert(mirrored(sends[k].1, recvs[m].1, ra, rb, ida, idb));
                lemma_protocol_loops(sends[k].1, recvs[m].1, ra, rb, ida, idb, g);
            }
        },
        (LocalSpec::Branch(_, recvs), LocalSpec::Select(_, sends)) => {
            let out = protocol_of(a, b, ra, rb, g)->Select_2;
            assert forall|k: int| 0 <= k < out.len() implies loops_to((#[trigger] out[k]).1, g) by {
                let m = find_label(recvs, sends[k].0)->Some_0;
                assert(mirrored(recvs[m].1, sends[k].1, ra, rb, ida, idb));
                lemma_protocol_loops(recvs[m].1, sends[k].1, ra, rb, ida, idb, g);
            }
        },
        _ => {},
    }
}

/// Continuations without binders have no binders together.
proof fn lemma_no_binders(conts: Seq<(Label, LocalSpec)>)
    requires
        forall|k: int|
            0 <= k < conts.len() ==> crate::session_type::rec_ids((#[trigger] conts[k]).1) == Seq::<
                int,
            >::empty(),
    ensures
        crate::session_type::conts_rec_ids(conts) == Seq::<int>::empty(),
    decreases conts.len(),
{
    if conts.len() > 0 {
        lemma_no_binders(conts.drop_last());
        assert(crate::session_type::rec_ids(conts[conts.len() - 1].1) == Seq::<int>::empty());
        assert(crate::session_type::conts_rec_ids(conts) =~= Seq::<int>::empty());
    }
}

/// In a list without a label twice, each label is found at its own
/// position.
proof fn lemma_find_unique(conts: Seq<(Label, LocalSpec)>, k: int)
    requires
        crate::session_type::labels_unique(conts),
        0 <= k < conts.len(),
    ensures
        find_label(conts, conts[k].0) == Some(k),
{
    lemma_find_label(conts, conts[k].0, 0);
}

/// Where the labels of two lists are the same position by position, a
/// label is found in both at the same position.
proof fn lemma_find_same_labels(
    c1: Seq<(Label, LocalSpec)>,
    c2: Seq<(Label, LocalSpec)>,
    l: Label,
    i: int,
)
    requires
        0 <= i,
        c1.len() == c2.len(),
        forall|k: int| 0 <= k < c1.len() ==> (#[trigger] c1[k]).0 == c2[k].0,
    ensures
        crate::model::find_label_from(c1, l, i) == crate::model::find_label_from(c2, l, i),
    decreases c1.len() - i,
{
    if i < c1.len() {
        assert(c1[i].0 == c2[i].0);
        if c1[i].0 != l {
            lemma_find_same_labels(c1, c2, l, i + 1);
        }
    }
}

/// Mirrored loop bodies keep the rules for local types below their
/// binders, and hold no binder.
pub proof fn lemma_mirrored_sound(a: LocalSpec, b: LocalSpec, ra: Role, rb: Role, ida: int, idb: int)
    requires
        mirrored(a, b, ra, rb, ida, idb),
    ensures
        crate::session_type::sound_in(a, seq![ida]),
        crate::session_type::sound_in(b, seq![idb]),
        crate::session_type::rec_ids(a) == Seq::<int>::empty(),
        crate::session_type::rec_ids(b) == Seq::<int>::empty(),
    decreases a,
{
    match (a, b) {
        (LocalSpec::Select(_, sends), LocalSpec::Branch(_, recvs)) => {
            assert forall|k: int| 0 <= k < sends.len() implies crate::session_type::sound_in(
                (#[trigger] sends[k]).1,
                seq![ida],
            ) && crate::session_type::rec_ids(sends[k].1) == Seq::<int>::empty() by {
                let m = find_label(recvs, sends[k].0)->Some_0;
                assert(mirrored(sends[k].1, recvs[m].1, ra, rb, ida, idb));
                lemma_mirrored_sound(sends[k].1, recvs[m].1, ra, rb, ida, idb);
            }
            assert forall|j: int| 0 <= j < recvs.len() implies crate::session_type::sound_in(
                (#[trigger] recvs[j]).1,
                seq![idb],
            ) && crate::session_type::rec_ids(recvs[j].1) == Seq::<int>::empty() by {
                assert(find_label(sends, recvs[j].0) is Some);
                lemma_find_label(sends, recvs[j].0, 0);
                let k = find_label(sends, recvs[j].0)->Some_0;
                lemma_find_unique(recvs, j);
                assert(sends[k].0 == recvs[j].0);
                assert(mirrored(sends[k].1, recvs[j].1, ra, rb, ida, idb));
                lemma_mirrored_sound(sends[k].1, recvs[j].1, ra, rb, ida, idb);
            }
            assert(recvs.len() > 0) by {
                lemma_find_label(recvs, sends[0].0, 0);
            }
            lemma_no_binders(sends);
            lemma_no_binders(recvs);
        },
        (LocalSpec::Branch(_, recvs), LocalSpec::Select(_, sends)) => {
            assert forall|k: int| 0 <= k < sends.len() implies crate::session_type::sound_in(
                (#[trigger] sends[k]).1,
                seq![idb],
            ) && crate::session_type::rec_ids(sends[k].1) == Seq::<int>::empty() by {
                let m = find_label(recvs, sends[k].0)->Some_0;
                assert(mirrored(recvs[m].1, sends[k].1, ra, rb, ida, idb));
                lemma_mirrored_sound(recvs[m].1, sends[k].1, ra, rb, ida, idb);
            }
            assert forall|j: int| 0 <= j < recvs.len() implies crate::session_type::sound_in(
                (#[trigger] recvs[j]).1,
                seq![ida],
            ) && crate::session_type::rec_ids(recvs[j].1) == Seq::<int>::empty() by {
                assert(find_label(sends, recvs[j].0) is Some);
                lemma_find_label(sends, recvs[j].0, 0);
                let k = find_label(sends, recvs[j].0)->Some_0;
                lemma_find_unique(recvs, j);
                assert(sends[k].0 == recvs[j].0);
                assert(mirrored(recvs[j].1, sends[k].1, ra, rb, ida, idb));
                lemma_mirrored_sound(recvs[j].1, sends[k].1, ra, rb, ida, idb);
            }
            assert(recvs.len() > 0) by {
                lemma_find_label(recvs, sends[0].0, 0);
            }
            lemma_no_binders(sends);
            lemma_no_binders(recvs);
        },
        (LocalSpec::X(x, false), LocalSpec::X(y, false)) => {
            assert(seq![ida][0] == ida);
            assert(seq![idb][0] == idb);
        },
        _ => {},
    }
}

/// Two participants whose residual types are mirrored loop bodies, with
/// the variables of both mapped to the global scope `g`, have the
/// protocol of those bodies.
proof fn lemma_mirrored_state(
    s: PartiesSpec,
    ia: int,
    ib: int,
    a: LocalSpec,
    b: LocalSpec,
    ida: int,
    idb: int,
    g: int,
)
    requires
        s.parties.len() == 2,
        0 <= ia < 2,
        ib == 1 - ia,
        s.parties[ia].1 == crate::session_type::map_x(a, ida, g),
        s.parties[ib].1 == crate::session_type::map_x(b, idb, g),
        mirrored(a, b, s.parties[ia].0, s.parties[ib].0, ida, idb),
    ensures
        state_result(s) == Ok::<GlobalSpec, MergeError>(
            protocol_of(a, b, s.parties[ia].0, s.parties[ib].0, g),
        ),
    decreases a,
{
    let ra = s.parties[ia].0;
    let rb = s.parties[ib].0;
    match (a, b) {
        (LocalSpec::End, LocalSpec::End) => {
            assert(s.is_end_state()) by {
                assert forall|i: int| 0 <= i < s.parties.len() implies (#[trigger] s.parties[i]).1 is End by {
                    if i == ia {
                    } else {
                        assert(i == ib);
                    }
                }
            }
        },
        (LocalSpec::X(x, false), LocalSpec::X(y, false)) => {
            let v = LocalSpec::X(Some(g), true);
            assert(s.parties[0].1 == v && s.parties[1].1 == v);
            assert(!s.is_end_state()) by {
                assert(!(s.parties[0].1 is End));
            }
            assert(!can_unfold(s)) by {
                assert(!(s.parties[0].1 is RecX || s.parties[0].1 is End));
            }
            lemma_no_receiver_no_duals(s, s.parties.len());
            assert(duals_result(s, dual_pairs(s), 0) == Err::<GlobalSpec, Option<MergeError>>(None));
            assert(crate::model::first_x_from(s, 0) == 0);
            assert(all_end_or_x(s));
            assert(closing_result(s, None) == Ok::<GlobalSpec, MergeError>(GlobalSpec::X(g)));
        },
        (LocalSpec::Select(to, sends), LocalSpec::Branch(from, recvs)) => {
            let ms = crate::session_type::map_x_conts(sends, ida, g);
            let mr = crate::session_type::map_x_conts(recvs, idb, g);
            assert(conts_of(s.parties[ia].1) == ms);
            assert(conts_of(s.parties[ib].1) == mr);
            let want = protocol_of(a, b, ra, rb, g)->Select_2;
            let gs = Seq::new(sends.len(), |k: int| want[k].1);
            assert forall|x: int| 0 <= x < gs.len() implies find_label(mr, (#[trigger] ms[x]).0) is Some
                && state_result(step_state(s, ia, ib, x)) == Ok::<GlobalSpec, MergeError>(gs[x]) by {
                lemma_find_same_labels(mr, recvs, ms[x].0, 0);
                lemma_find_label(recvs, sends[x].0, 0);
                let m = find_label(recvs, sends[x].0)->Some_0;
                assert(find_label(mr, ms[x].0) == Some(m));
                let c = step_state(s, ia, ib, x);
                assert(c == child(s, ia, ib, ms[x].1, mr[m].1));
                assert(mirrored(sends[x].1, recvs[m].1, ra, rb, ida, idb));
                lemma_mirrored_state(c, ia, ib, sends[x].1, recvs[m].1, ida, idb, g);
            }
            lemma_branch_preservation(s, ia, ib, gs);
            assert(labelled(s, ia, gs) =~= want);
        },
        (LocalSpec::Branch(from, recvs), LocalSpec::Select(to, sends)) => {
            let ms = crate::session_type::map_x_conts(sends, idb, g);
            let mr = crate::session_type::map_x_conts(recvs, ida, g);
            assert(conts_of(s.parties[ib].1) == ms);
            assert(conts_of(s.parties[ia].1) == mr);
            let want = protocol_of(a, b, ra, rb, g)->Select_2;
            let gs = Seq::new(sends.len(), |k: int| want[k].1);
            assert forall|x: int| 0 <= x < gs.len() implies find_label(mr, (#[trigger] ms[x]).0) is Some
                && state_result(step_state(s, ib, ia, x)) == Ok::<GlobalSpec, MergeError>(gs[x]) by {
                lemma_find_same_labels(mr, recvs, ms[x].0, 0);
                lemma_find_label(recvs, sends[x].0, 0);
                let m = find_label(recvs, sends[x].0)->Some_0;
                assert(find_label(mr, ms[x].0) == Some(m));
                let c = step_state(s, ib, ia, x);
                assert(c == child(s, ib, ia, ms[x].1, mr[m].1));
                assert(mirrored(recvs[m].1, sends[x].1, ra, rb, ida, idb));
                lemma_mirrored_state(c, ia, ib, recvs[m].1, sends[x].1, ida, idb, g);
            }
            lemma_branch_preservation(s, ib, ia, gs);
            assert(labelled(s, ib, gs) =~= want);
        },
        _ => {},
    }
}

/// Recursion alignment: two participants that each loop, `ta` binding
/// the loop body `a` and `tb` its mirror `b`, merge into one global loop
/// whose body is the protocol of the two bodies, and every recursion
/// variable in it refers to that global loop.
pub proof fn lemma_recursion_alignment(ra: Role, rb: Role, ta: LocalSpec, tb: LocalSpec)
    requires
        ra is Some,
        rb is Some,
        ra != rb,
        ta is RecX,
        tb is RecX,
        mirrored(*ta->cont, *tb->cont, ra, rb, ta->id, tb->id),
    ensures
        merge_result(initial(seq![(ra, ta), (rb, tb)])) == Ok::<GlobalSpec, MergeError>(
            GlobalSpec::RecX(0, Box::new(protocol_of(*ta->cont, *tb->cont, ra, rb, 0))),
        ),
        loops_to(protocol_of(*ta->cont, *tb->cont, ra, rb, 0), 0),
{
    let a = *ta->cont;
    let b = *tb->cont;
    let s = initial(seq![(ra, ta), (rb, tb)]);
    lemma_assoc_from_two((ra, ta), (rb, tb));
    let ia: int = if role_lt(ra, rb) { 0 } else { 1 };
    let ib: int = 1 - ia;
    assert(s.parties[ia] == (ra, ta));
    assert(s.parties[ib] == (rb, tb));
    lemma_mirrored_sound(a, b, ra, rb, ta->id, tb->id);
    lemma_protocol_loops(a, b, ra, rb, ta->id, tb->id, 0);
    assert(valid_input(s)) by {
        assert(Seq::<int>::empty().push(ta->id) =~= seq![ta->id]);
        assert(Seq::<int>::empty().push(tb->id) =~= seq![tb->id]);
        assert(crate::session_type::rec_ids(ta) =~= seq![ta->id]);
        assert(crate::session_type::rec_ids(tb) =~= seq![tb->id]);
        assert(well_formed(ta));
        assert(well_formed(tb));
        assert forall|i: int| 0 <= i < s.parties.len() implies (#[trigger] s.parties[i]).0 is Some
            && well_formed(s.parties[i].1) by {
            if i == ia {
            } else {
                assert(i == ib);
            }
        }
    }
    assert(!s.is_end_state()) by {
        assert(!(s.parties[ia].1 is End));
    }
    assert(can_unfold(s)) by {
        assert forall|i: int| 0 <= i < s.parties.len() implies (#[trigger] s.parties[i]).1 is RecX
            || s.parties[i].1 is End by {
            if i == ia {
            } else {
                assert(i == ib);
            }
        }
        assert(s.parties[ia].1 is RecX);
    }
    let u = crate::model::unfold(s);
    lemma_mirrored_state(u, ia, ib, a, b, ta->id, tb->id, 0);
}

} // verus!
