//! What the merge computes, as a function of the state of the merge.
//!
//! The merge works the residual local types of all participants off, one
//! protocol step at a time:
//!
//! 1. where every participant has reached `End`, the protocol is `End`;
//! 2. where every participant stands at a recursion binder or at `End`,
//!    and at least one at a binder, a global recursion scope is opened;
//! 3. otherwise each pair of a sender and a receiver that share a label
//!    is tried in the order of the participants, and the first pair whose
//!    reduction succeeds gives the protocol;
//! 4. where no pair can be reduced, the participants may all stand at
//!    `End` or at the same recursion variable, which closes the loop;
//! 5. anything else is an error: that of the first pair that was tried,
//!    or, where there was no pair to try, `UnmatchedLabel` if some
//!    participant offers labels, and `NoReducibleDual` if none does.
//!
//! A choice of the protocol always goes from the sender to the receiver,
//! whichever of the two was looked at first.

use crate::global_type::GlobalSpec;
use crate::parties::{lemma_total_size_update, scope_of, total_size, ContextSpec, PartiesSpec};
use crate::session_type::{
    lemma_cont_smaller, lemma_map_x_size, map_x, well_formed, Label, LocalSpec, Role,
};
use vstd::prelude::*;

verus! {

/// Why local types cannot be merged.
#[derive(Debug, Clone, Copy, PartialEq, Eq, Structural)]
pub enum MergeError {
    /// A sender and a receiver that share a label name other partners
    /// than each other.
    ParticipantMismatch,
    /// A sender offers a label that the receiver does not accept, or that
    /// nobody accepts.
    UnmatchedLabel,
    /// Some participant has not reached `End`, and no sender and receiver
    /// can take a step together.
    NoReducibleDual,
    /// A local type breaks the rules for local types, or a participant
    /// has no name.
    MalformedLocal,
    /// A participant has reached `End` inside a recursion scope that the
    /// others are about to repeat.
    UnalignedEnd,
}

/// The residual type after a binder at its head has been opened as the
/// global scope `g`.
pub open spec fn unfold_type(t: LocalSpec, g: int) -> LocalSpec {
    match t {
        LocalSpec::RecX { cont, id, .. } => map_x(*cont, id, g),
        _ => t,
    }
}

/// Every participant stands at a binder or at `End`, and at least one at
/// a binder.
pub open spec fn can_unfold(s: PartiesSpec) -> bool {
    &&& forall|i: int|
        0 <= i < s.parties.len() ==> (#[trigger] s.parties[i]).1 is RecX || s.parties[i].1 is End
    &&& exists|i: int| 0 <= i < s.parties.len() && (#[trigger] s.parties[i]).1 is RecX
}

/// The residual types after the binders at their heads have been opened
/// as the global scope `g`.
pub open spec fn unfold_all(ps: Seq<(Role, LocalSpec)>, g: int) -> Seq<(Role, LocalSpec)> {
    Seq::new(ps.len(), |i: int| (ps[i].0, unfold_type(ps[i].1, g)))
}

/// The state inside the global scope that is opened in the state `s`: the
/// id of the scope is the global depth, and the depths of `s` are
/// remembered as those at which the scope was opened.
pub open spec fn unfold(s: PartiesSpec) -> PartiesSpec {
    PartiesSpec {
        parties: unfold_all(s.parties, s.global_depth),
        global_depth: s.global_depth,
        local_depth: s.local_depth,
        recursive_context: ContextSpec {
            local_depths: s.local_depth,
            global_depth: s.global_depth,
            outer: Some(Box::new(s.recursive_context)),
        },
    }
}

/// Some label is offered by `sends` and accepted by `recvs`.
pub open spec fn share_label(sends: Seq<(Label, LocalSpec)>, recvs: Seq<(Label, LocalSpec)>) -> bool {
    exists|a: int, b: int|
        #![trigger sends[a], recvs[b]]
        0 <= a < sends.len() && 0 <= b < recvs.len() && sends[a].0 == recvs[b].0
}

/// The participant at `i` is a sender, the one at `j` a receiver, and
/// they share a label.
pub open spec fn is_dual(s: PartiesSpec, i: int, j: int) -> bool {
    &&& 0 <= i < s.parties.len()
    &&& 0 <= j < s.parties.len()
    &&& s.parties[i].1 is Select
    &&& s.parties[j].1 is Branch
    &&& share_label(s.parties[i].1->Select_1, s.parties[j].1->Branch_1)
}

/// The pairs of the sender at `i` with the receivers before position `m`.
pub open spec fn row_duals(s: PartiesSpec, i: int, m: nat) -> Seq<(int, int)>
    decreases m,
{
    if m == 0 {
        Seq::empty()
    } else {
        let before = row_duals(s, i, (m - 1) as nat);
        if is_dual(s, i, m - 1) {
            before.push((i, m - 1))
        } else {
            before
        }
    }
}

/// The pairs of the senders before position `m` with all receivers.
pub open spec fn duals_upto(s: PartiesSpec, m: nat) -> Seq<(int, int)>
    decreases m,
{
    if m == 0 {
        Seq::empty()
    } else {
        duals_upto(s, (m - 1) as nat) + row_duals(s, m - 1, s.parties.len())
    }
}

/// All pairs of a sender and a receiver that share a label, as positions
/// in the state: each pair once, ordered by the sender and then by the
/// receiver.
pub open spec fn dual_pairs(s: PartiesSpec) -> Seq<(int, int)> {
    duals_upto(s, s.parties.len())
}

/// The first position from `i` on at which `conts` has the label `l`.
pub open spec fn find_label_from(conts: Seq<(Label, LocalSpec)>, l: Label, i: int) -> Option<int>
    decreases conts.len() - i,
{
    if i < 0 || i >= conts.len() {
        None
    } else if conts[i].0 == l {
        Some(i)
    } else {
        find_label_from(conts, l, i + 1)
    }
}

/// The first position at which `conts` has the label `l`.
pub open spec fn find_label(conts: Seq<(Label, LocalSpec)>, l: Label) -> Option<int> {
    find_label_from(conts, l, 0)
}

/// The partner that a local type names is the peer, or left open.
pub open spec fn partner_ok(named: Role, peer: Role) -> bool {
    named is None || named == peer
}

/// The continuations of a choice.
pub open spec fn conts_of(t: LocalSpec) -> Seq<(Label, LocalSpec)> {
    match t {
        LocalSpec::Select(_, conts) => conts,
        LocalSpec::Branch(_, conts) => conts,
        _ => Seq::empty(),
    }
}

/// The state after the sender at `si` and the receiver at `ri` have
/// exchanged one label: they go on with the continuations given, both
/// are one step deeper, and so is the protocol.
pub open spec fn child(
    s: PartiesSpec,
    si: int,
    ri: int,
    send_cont: LocalSpec,
    recv_cont: LocalSpec,
) -> PartiesSpec {
    PartiesSpec {
        parties: s.parties.update(si, (s.parties[si].0, send_cont)).update(
            ri,
            (s.parties[ri].0, recv_cont),
        ),
        global_depth: s.global_depth + 1,
        local_depth: s.local_depth.update(si, (s.local_depth[si].0, s.local_depth[si].1 + 1)).update(
            ri,
            (s.local_depth[ri].0, s.local_depth[ri].1 + 1),
        ),
        recursive_context: s.recursive_context,
    }
}

/// `find_label_from` finds the first position with the label, if there
/// is one.
pub proof fn lemma_find_label(conts: Seq<(Label, LocalSpec)>, l: Label, i: int)
    requires
        0 <= i,
    ensures
        match find_label_from(conts, l, i) {
            Some(m) => i <= m < conts.len() && conts[m].0 == l && forall|j: int|
                i <= j < m ==> conts[j].0 != l,
            None => forall|j: int| i <= j < conts.len() ==> conts[j].0 != l,
        },
    decreases conts.len() - i,
{
    if i < conts.len() && conts[i].0 != l {
        lemma_find_label(conts, l, i + 1);
    }
}

/// Opening the binders adds no node and takes at least one where there
/// is a binder.
pub proof fn lemma_unfold_all_size(ps: Seq<(Role, LocalSpec)>, g: int)
    ensures
        total_size(unfold_all(ps, g)) <= total_size(ps),
        (exists|i: int| 0 <= i < ps.len() && (#[trigger] ps[i]).1 is RecX) ==> total_size(
            unfold_all(ps, g),
        ) < total_size(ps),
    decreases ps.len(),
{
    if ps.len() > 0 {
        let init = ps.drop_last();
        lemma_unfold_all_size(init, g);
        assert(unfold_all(ps, g).drop_last() =~= unfold_all(init, g));
        match ps.last().1 {
            LocalSpec::RecX { cont, id, .. } => {
                lemma_map_x_size(*cont, id, g);
            },
            _ => {},
        }
        if exists|i: int| 0 <= i < ps.len() && (#[trigger] ps[i]).1 is RecX {
            let i = choose|i: int| 0 <= i < ps.len() && (#[trigger] ps[i]).1 is RecX;
            if i < ps.len() - 1 {
                assert(init[i].1 is RecX);
            }
        }
    }
}

/// Termination, first half: the state inside a newly opened scope has
/// fewer nodes than the state in which the scope is opened.
pub proof fn lemma_unfold_smaller(s: PartiesSpec)
    requires
        can_unfold(s),
    ensures
        total_size(unfold(s).parties) < total_size(s.parties),
{
    lemma_unfold_all_size(s.parties, s.global_depth);
}

/// Termination, second half: the state after a protocol step has at
/// least two nodes fewer than the state before it.
pub proof fn lemma_child_smaller(s: PartiesSpec, si: int, ri: int, a: int, b: int)
    requires
        0 <= si < s.parties.len(),
        0 <= ri < s.parties.len(),
        si != ri,
        0 <= a < conts_of(s.parties[si].1).len(),
        0 <= b < conts_of(s.parties[ri].1).len(),
    ensures
        total_size(
            child(s, si, ri, conts_of(s.parties[si].1)[a].1, conts_of(s.parties[ri].1)[b].1).parties,
        ) + 2 <= total_size(s.parties),
{
    let sends = conts_of(s.parties[si].1);
    let recvs = conts_of(s.parties[ri].1);
    lemma_cont_smaller(sends, a);
    lemma_cont_smaller(recvs, b);
    let mid = s.parties.update(si, (s.parties[si].0, sends[a].1));
    lemma_total_size_update(s.parties, si, (s.parties[si].0, sends[a].1));
    lemma_total_size_update(mid, ri, (s.parties[ri].0, recvs[b].1));
}

/// Every residual type is `End` or a recursion variable.
pub open spec fn all_end_or_x(s: PartiesSpec) -> bool {
    forall|i: int|
        0 <= i < s.parties.len() ==> (#[trigger] s.parties[i]).1 is End || s.parties[i].1 is X
}

/// The first position from `i` on at which a recursion variable stands.
pub open spec fn first_x_from(s: PartiesSpec, i: int) -> int
    decreases s.parties.len() - i,
{
    if 0 <= i < s.parties.len() && !(s.parties[i].1 is X) {
        first_x_from(s, i + 1)
    } else {
        i
    }
}

/// A recursion variable that refers to a global scope.
pub open spec fn is_mapped_x(t: LocalSpec) -> bool {
    t matches LocalSpec::X(Some(_), true)
}

/// The participants at `End` have not taken a step since the scope `g`
/// was opened: the scope is one of those that the state remembers, and
/// the depths of these participants are still those at which it was
/// opened.
pub open spec fn ends_aligned(s: PartiesSpec, g: int) -> bool {
    match scope_of(s.recursive_context, g) {
        Some(scope) => forall|i: int|
            0 <= i < s.parties.len() && (#[trigger] s.parties[i]).1 is End ==> 0 <= i
                < s.local_depth.len() && i < scope.local_depths.len() && s.local_depth[i].1
                == scope.local_depths[i].1,
        None => false,
    }
}

/// What the merge makes of a state in which no pair could be reduced.
/// `first` is the error of the first pair that was tried, if any was.
///
/// Where all participants stand at `End` or at a recursion variable, the
/// variables have to refer to one and the same global scope, and the
/// participants at `End`, if there are any, must not have taken a step
/// inside that scope; the protocol then goes back to the scope.
/// Otherwise the merge has failed: with the error of the first pair,
/// with `UnmatchedLabel` where no pair was tried though a participant
/// offers labels, and else with `NoReducibleDual`.
pub open spec fn closing_result(s: PartiesSpec, first: Option<MergeError>) -> Result<
    GlobalSpec,
    MergeError,
> {
    let fx = first_x_from(s, 0);
    if all_end_or_x(s) && fx < s.parties.len() {
        let x = s.parties[fx].1;
        if exists|i: int|
            0 <= i < s.parties.len() && (#[trigger] s.parties[i]).1 is X && !is_mapped_x(
                s.parties[i].1,
            ) {
            Err(MergeError::MalformedLocal)
        } else if exists|i: int|
            0 <= i < s.parties.len() && (#[trigger] s.parties[i]).1 is X && s.parties[i].1 != x {
            Err(MergeError::NoReducibleDual)
        } else {
            let g = x->X_0->Some_0;
            if (forall|i: int| 0 <= i < s.parties.len() ==> !((#[trigger] s.parties[i]).1 is End))
                || ends_aligned(s, g) {
                Ok(GlobalSpec::X(g))
            } else {
                Err(MergeError::UnalignedEnd)
            }
        }
    } else {
        match first {
            Some(e) => Err(e),
            None => if exists|i: int| 0 <= i < s.parties.len() && (#[trigger] s.parties[i]).1 is Select {
                Err(MergeError::UnmatchedLabel)
            } else {
                Err(MergeError::NoReducibleDual)
            },
        }
    }
}

/// The protocol of the state `s`, or the reason why there is none.
pub open spec fn state_result(s: PartiesSpec) -> Result<GlobalSpec, MergeError>
    decreases total_size(s.parties), 3nat, 0nat,
{
    if s.is_end_state() {
        Ok(GlobalSpec::End)
    } else if can_unfold(s) {
        proof {
            lemma_unfold_smaller(s);
        }
        match state_result(unfold(s)) {
            Ok(g) => Ok(GlobalSpec::RecX(s.global_depth, Box::new(g))),
            Err(e) => Err(e),
        }
    } else {
        match duals_result(s, dual_pairs(s), 0) {
            Ok(g) => Ok(g),
            Err(first) => closing_result(s, first),
        }
    }
}

/// The protocol that the first pair from position `k` on gives whose
/// reduction succeeds, or else the error of the pair at `k`, if there is
/// one.
pub open spec fn duals_result(s: PartiesSpec, duals: Seq<(int, int)>, k: nat) -> Result<
    GlobalSpec,
    Option<MergeError>,
>
    decreases total_size(s.parties), 2nat, duals.len() - k,
{
    if k >= duals.len() {
        Err(None)
    } else {
        match reduce_result(s, duals[k as int].0, duals[k as int].1) {
            Ok(g) => Ok(g),
            Err(e) => match duals_result(s, duals, k + 1) {
                Ok(g) => Ok(g),
                Err(_) => Err(Some(e)),
            },
        }
    }
}

/// The protocol that starts with the choice of the sender at `si`, taken
/// by the receiver at `ri`: each label that the sender offers, with the
/// protocol of the state after that label was exchanged.
pub open spec fn reduce_result(s: PartiesSpec, si: int, ri: int) -> Result<GlobalSpec, MergeError>
    decreases total_size(s.parties), 1nat, 0nat,
{
    if !(0 <= si < s.parties.len() && 0 <= ri < s.parties.len()) {
        Err(MergeError::NoReducibleDual)
    } else {
        match (s.parties[si].1, s.parties[ri].1) {
            (LocalSpec::Select(to, _), LocalSpec::Branch(from, _)) => {
                if !partner_ok(to, s.parties[ri].0) || !partner_ok(from, s.parties[si].0) {
                    Err(MergeError::ParticipantMismatch)
                } else {
                    match conts_result(s, si, ri, 0) {
                        Ok(conts) => Ok(GlobalSpec::Select(s.parties[si].0, s.parties[ri].0, conts)),
                        Err(e) => Err(e),
                    }
                }
            },
            _ => Err(MergeError::NoReducibleDual),
        }
    }
}

/// The labels that the sender at `si` offers from position `k` on, each
/// with the protocol of the state after the receiver at `ri` has taken
/// it; or the error of the first label that the receiver does not accept
/// or whose state has no protocol.
pub open spec fn conts_result(s: PartiesSpec, si: int, ri: int, k: nat) -> Result<
    Seq<(Label, GlobalSpec)>,
    MergeError,
>
    decreases total_size(s.parties), 0nat, conts_of(s.parties[si].1).len() - k,
{
    let sends = conts_of(s.parties[si].1);
    let recvs = conts_of(s.parties[ri].1);
    if !(0 <= si < s.parties.len() && 0 <= ri < s.parties.len() && si != ri) || k >= sends.len() {
        Ok(Seq::empty())
    } else {
        match find_label(recvs, sends[k as int].0) {
            None => Err(MergeError::UnmatchedLabel),
            Some(m) => {
                proof {
                    lemma_find_label(recvs, sends[k as int].0, 0);
                    lemma_child_smaller(s, si, ri, k as int, m);
                }
                match state_result(child(s, si, ri, sends[k as int].1, recvs[m].1)) {
                    Err(e) => Err(e),
                    Ok(g) => match conts_result(s, si, ri, k + 1) {
                        Err(e) => Err(e),
                        Ok(rest) => Ok(seq![(sends[k as int].0, g)] + rest),
                    },
                }
            },
        }
    }
}

/// Every participant has a name and a local type that keeps the rules
/// for local types.
pub open spec fn valid_input(s: PartiesSpec) -> bool {
    forall|i: int|
        0 <= i < s.parties.len() ==> (#[trigger] s.parties[i]).0 is Some && well_formed(s.parties[i].1)
}

/// The global type that the local types of the state `s` merge into, or
/// the reason why they do not merge.
pub open spec fn merge_result(s: PartiesSpec) -> Result<GlobalSpec, MergeError> {
    if !valid_input(s) {
        Err(MergeError::MalformedLocal)
    } else {
        state_result(s)
    }
}

} // verus!
