//! The merge of the local types of all participants into one global type.

pub use crate::global_type::GlobalType;
use crate::global_type::{global_conts_view, GlobalSpec};
pub use crate::model::MergeError;
use crate::model::{
    all_end_or_x, can_unfold, child, closing_result, conts_of, conts_result, dual_pairs,
    duals_result, duals_upto, ends_aligned, find_label, find_label_from, first_x_from, is_dual,
    is_mapped_x, lemma_child_smaller, lemma_unfold_all_size, lemma_unfold_smaller,
    merge_result, partner_ok, reduce_result, row_duals, share_label, state_result, unfold,
    unfold_all, unfold_type, valid_input,
};
use crate::order::lemma_role_lt_irreflexive;
pub use crate::parties::{Parties, RecursiveContext};
use crate::parties::{
    ascending, clone_depths, firsts, keys, lemma_scope_of, locate, parties_view, rank, rank_from,
    scope_of, total_size, PartiesSpec,
};
use crate::session_type::{conts_view, Label, MPSTLocalType, Participant, Role};
use vstd::prelude::*;

verus! {

/// The mathematical value of the outcome of a merge.
pub open spec fn result_view(r: Result<GlobalType, MergeError>) -> Result<GlobalSpec, MergeError> {
    match r {
        Ok(g) => Ok(g@),
        Err(e) => Err(e),
    }
}

/// The participants at the given pairs of positions.
pub open spec fn roles_at(s: PartiesSpec, pairs: Seq<(int, int)>) -> Seq<(Role, Role)> {
    Seq::new(pairs.len(), |k: int| (s.parties[pairs[k].0].0, s.parties[pairs[k].1].0))
}

/// The mathematical value of a list of pairs of participants.
pub open spec fn pairs_view(v: Seq<(Participant, Participant)>) -> Seq<(Role, Role)> {
    Seq::new(v.len(), |k: int| (v[k].0@, v[k].1@))
}

/// The participant `r` takes part in the state.
pub open spec fn present(s: PartiesSpec, r: Role) -> bool {
    let i = rank(keys(s.parties), r);
    0 <= i < s.parties.len() && s.parties[i].0 == r
}

/// The protocol that starts with the step that the participants `a` and
/// `b` take together, whichever of them is the sender; there is none
/// unless both take part in the state, one as a sender and the other as a
/// receiver.
pub open spec fn pair_result(s: PartiesSpec, a: Role, b: Role) -> Result<GlobalSpec, MergeError> {
    let i = rank(keys(s.parties), a);
    let j = rank(keys(s.parties), b);
    if !present(s, a) || !present(s, b) {
        Err(MergeError::NoReducibleDual)
    } else if s.parties[i].1 is Select && s.parties[j].1 is Branch {
        reduce_result(s, i, j)
    } else if s.parties[i].1 is Branch && s.parties[j].1 is Select {
        reduce_result(s, j, i)
    } else {
        Err(MergeError::NoReducibleDual)
    }
}

/// A participant of the state is found at its own position.
pub proof fn lemma_rank_of_member(ks: Seq<Role>, i: int, from: int)
    requires
        ascending(ks),
        0 <= from <= i < ks.len(),
    ensures
        rank_from(ks, ks[i], from) == i,
    decreases i - from,
{
    if from < i {
        lemma_rank_of_member(ks, i, from + 1);
    } else {
        lemma_role_lt_irreflexive(ks[i]);
    }
}

/// Every pair of a row is a sender with a receiver that shares a label
/// with it.
pub proof fn lemma_row_duals(s: PartiesSpec, i: int, m: nat)
    ensures
        forall|k: int|
            0 <= k < row_duals(s, i, m).len() ==> is_dual(
                s,
                (#[trigger] row_duals(s, i, m)[k]).0,
                row_duals(s, i, m)[k].1,
            ),
    decreases m,
{
    if m > 0 {
        lemma_row_duals(s, i, (m - 1) as nat);
        let before = row_duals(s, i, (m - 1) as nat);
        let now = row_duals(s, i, m);
        assert forall|k: int| 0 <= k < now.len() implies is_dual(s, (#[trigger] now[k]).0, now[k].1) by {
            if k < before.len() {
                assert(now[k] == before[k]);
            }
        }
    }
}

/// Every pair that the merge tries is a sender with a receiver that
/// shares a label with it.
pub proof fn lemma_duals_upto(s: PartiesSpec, m: nat)
    ensures
        forall|k: int|
            0 <= k < duals_upto(s, m).len() ==> is_dual(
                s,
                (#[trigger] duals_upto(s, m)[k]).0,
                duals_upto(s, m)[k].1,
            ),
    decreases m,
{
    if m > 0 {
        lemma_duals_upto(s, (m - 1) as nat);
        lemma_row_duals(s, m - 1, s.parties.len());
        let before = duals_upto(s, (m - 1) as nat);
        let row = row_duals(s, m - 1, s.parties.len());
        let now = duals_upto(s, m);
        assert forall|k: int| 0 <= k < now.len() implies is_dual(s, (#[trigger] now[k]).0, now[k].1) by {
            if k < before.len() {
                assert(now[k] == before[k]);
            } else {
                assert(now[k] == row[k - before.len()]);
            }
        }
    }
}

/// Opening a scope keeps a state workable.
pub proof fn lemma_unfold_keeps(s: PartiesSpec)
    requires
        s.wf(),
        s.within_budget(),
    ensures
        unfold(s).wf(),
        unfold(s).within_budget(),
{
    lemma_unfold_all_size(s.parties, s.global_depth);
    assert(keys(unfold(s).parties) =~= keys(s.parties));
}

/// A protocol step keeps a state workable.
pub proof fn lemma_child_keeps(s: PartiesSpec, si: int, ri: int, a: int, b: int)
    requires
        s.wf(),
        s.within_budget(),
        0 <= si < s.parties.len(),
        0 <= ri < s.parties.len(),
        si != ri,
        0 <= a < conts_of(s.parties[si].1).len(),
        0 <= b < conts_of(s.parties[ri].1).len(),
    ensures
        child(s, si, ri, conts_of(s.parties[si].1)[a].1, conts_of(s.parties[ri].1)[b].1).wf(),
        child(
            s,
            si,
            ri,
            conts_of(s.parties[si].1)[a].1,
            conts_of(s.parties[ri].1)[b].1,
        ).within_budget(),
{
    let c = child(s, si, ri, conts_of(s.parties[si].1)[a].1, conts_of(s.parties[ri].1)[b].1);
    lemma_child_smaller(s, si, ri, a, b);
    assert(keys(c.parties) =~= keys(s.parties));
    assert(keys(c.local_depth) =~= keys(s.local_depth));
    assert forall|i: int| 0 <= i < c.local_depth.len() implies (#[trigger] c.local_depth[i]).1
        + total_size(c.parties) <= i32::MAX by {}
}

impl Parties {
    /// Whether every participant stands at a binder or at `End`, and at
    /// least one at a binder.
    fn can_unfold(&self) -> (b: bool)
        ensures
            b == can_unfold(self@),
    {
        let mut any_rec = false;
        let mut i: usize = 0;
        while i < self.parties.len()
            invariant
                i <= self.parties.len(),
                forall|j: int|
                    0 <= j < i ==> (#[trigger] self@.parties[j]).1 is RecX || self@.parties[j].1 is End,
                any_rec == (exists|j: int| 0 <= j < i && (#[trigger] self@.parties[j]).1 is RecX),
            decreases self.parties.len() - i,
        {
            match &self.parties[i].1 {
                MPSTLocalType::RecX { .. } => {
                    assert(self@.parties[i as int].1 is RecX);
                    any_rec = true;
                },
                MPSTLocalType::End => {},
                _ => {
                    return false;
                },
            }
            i += 1;
        }
        any_rec
    }

    /// Whether every participant has a name and a local type that keeps
    /// the rules for local types.
    pub fn has_valid_input(&self) -> (b: bool)
        ensures
            b == valid_input(self@),
    {
        let mut i: usize = 0;
        while i < self.parties.len()
            invariant
                i <= self.parties.len(),
                forall|j: int|
                    0 <= j < i ==> (#[trigger] self@.parties[j]).0 is Some
                        && crate::session_type::well_formed(self@.parties[j].1),
            decreases self.parties.len() - i,
        {
            if self.parties[i].0.is_anonymous() || !self.parties[i].1.is_well_formed() {
                assert(!(self@.parties[i as int].0 is Some && crate::session_type::well_formed(
                    self@.parties[i as int].1,
                )));
                return false;
            }
            i += 1;
        }
        true
    }
}

/// Opens a global recursion scope where every participant stands at a
/// binder or at `End`, and at least one at a binder: each binder gives
/// way to its body, in which the variables of the binder refer to the new
/// scope. Says whether it did; where it did not, the state is unchanged.
pub fn unwrap_rec(parties: Parties) -> (res: (bool, Parties))
    ensures
        res.0 == can_unfold(parties@),
        res.1@ == (if res.0 {
            unfold(parties@)
        } else {
            parties@
        }),
{
    if !parties.can_unfold() {
        return (false, parties);
    }
    let ghost s = parties@;
    let mut new_parties: Vec<(Participant, MPSTLocalType)> = Vec::new();
    let mut i: usize = 0;
    while i < parties.parties.len()
        invariant
            i <= parties.parties.len(),
            s == parties@,
            new_parties.len() == i,
            forall|j: int|
                0 <= j < i ==> (#[trigger] new_parties@[j]).0@ == s.parties[j].0 && new_parties@[j].1@
                    == unfold_type(s.parties[j].1, s.global_depth),
        decreases parties.parties.len() - i,
    {
        let p = parties.parties[i].0.clone();
        let t = match &parties.parties[i].1 {
            MPSTLocalType::RecX { cont, id, .. } => cont.map_local_x_to_global_rec(
                *id,
                parties.global_depth,
            ),
            other => other.clone(),
        };
        new_parties.push((p, t));
        i += 1;
    }
    assert(parties_view(new_parties@) =~= unfold_all(s.parties, s.global_depth));
    let recursive_context = RecursiveContext {
        local_depths: clone_depths(&parties.local_depth),
        global_depth: parties.global_depth,
        outer: Some(Box::new(parties.recursive_context)),
    };
    (
        true,
        Parties {
            parties: new_parties,
            global_depth: parties.global_depth,
            local_depth: parties.local_depth,
            recursive_context,
        },
    )
}

/// Whether some label that `sends` offers is accepted by `recvs`.
fn shares_label(sends: &Vec<(String, MPSTLocalType)>, recvs: &Vec<(String, MPSTLocalType)>) -> (b:
    bool)
    ensures
        b == share_label(conts_view(sends@), conts_view(recvs@)),
{
    let ghost sv = conts_view(sends@);
    let ghost rv = conts_view(recvs@);
    let mut a: usize = 0;
    while a < sends.len()
        invariant
            a <= sends.len(),
            sv == conts_view(sends@),
            rv == conts_view(recvs@),
            forall|x: int, y: int|
                #![trigger sv[x], rv[y]]
                0 <= x < a && 0 <= y < rv.len() ==> sv[x].0 != rv[y].0,
        decreases sends.len() - a,
    {
        let mut b: usize = 0;
        while b < recvs.len()
            invariant
                a < sends.len(),
                b <= recvs.len(),
                sv == conts_view(sends@),
                rv == conts_view(recvs@),
                forall|y: int| 0 <= y < b ==> sv[a as int].0 != (#[trigger] rv[y]).0,
            decreases recvs.len() - b,
        {
            if sends[a].0 == recvs[b].0 {
                assert(sv[a as int].0 == rv[b as int].0);
                return true;
            }
            b += 1;
        }
        a += 1;
    }
    false
}

/// The first position at which `conts` has the label.
fn find_label_in(conts: &Vec<(String, MPSTLocalType)>, label: &String) -> (r: Option<usize>)
    ensures
        match r {
            Some(m) => m < conts.len() && find_label(conts_view(conts@), label@) == Some(m as int),
            None => find_label(conts_view(conts@), label@) is None,
        },
{
    let ghost cv = conts_view(conts@);
    let mut i: usize = 0;
    while i < conts.len()
        invariant
            i <= conts.len(),
            cv == conts_view(conts@),
            find_label(cv, label@) == find_label_from(cv, label@, i as int),
        decreases conts.len() - i,
    {
        if conts[i].0 == *label {
            return Some(i);
        }
        i += 1;
    }
    None
}

/// Whether the participant at `i` is a sender and the one at `j` a
/// receiver that shares a label with it.
fn is_dual_at(parties: &Parties, i: usize, j: usize) -> (b: bool)
    requires
        i < parties.parties.len(),
        j < parties.parties.len(),
    ensures
        b == is_dual(parties@, i as int, j as int),
{
    match (&parties.parties[i].1, &parties.parties[j].1) {
        (MPSTLocalType::Select(_, sends), MPSTLocalType::Branch(_, recvs)) => shares_label(
            sends,
            recvs,
        ),
        _ => false,
    }
}

/// All pairs of a sender and a receiver that share a label: each pair
/// once, the sender first, ordered by the sender and then by the
/// receiver.
pub fn enumerate_duals(parties: &Parties) -> (duals: Vec<(Participant, Participant)>)
    ensures
        pairs_view(duals@) == roles_at(parties@, dual_pairs(parties@)),
{
    let ghost s = parties@;
    let n = parties.parties.len();
    let mut duals: Vec<(Participant, Participant)> = Vec::new();
    let mut i: usize = 0;
    while i < n
        invariant
            i <= n,
            n == parties.parties.len(),
            s == parties@,
            pairs_view(duals@) == roles_at(s, duals_upto(s, i as nat)),
        decreases n - i,
    {
        let mut j: usize = 0;
        while j < n
            invariant
                i < n,
                j <= n,
                n == parties.parties.len(),
                s == parties@,
                pairs_view(duals@) == roles_at(
                    s,
                    duals_upto(s, i as nat) + row_duals(s, i as int, j as nat),
                ),
            decreases n - j,
        {
            if is_dual_at(parties, i, j) {
                let ghost found = pairs_view(duals@);
                duals.push((parties.parties[i].0.clone(), parties.parties[j].0.clone()));
                proof {
                    let pair = (s.parties[i as int].0, s.parties[j as int].0);
                    assert(pairs_view(duals@) =~= found.push(pair));
                }
            }
            j += 1;
        }
        i += 1;
    }
    duals
}

/// The state after the sender at `si` and the receiver at `ri` have
/// exchanged a label and go on with the continuations given.
fn make_child(
    parties: &Parties,
    si: usize,
    ri: usize,
    send_cont: &MPSTLocalType,
    recv_cont: &MPSTLocalType,
) -> (c: Parties)
    requires
        si < parties.parties.len(),
        ri < parties.parties.len(),
        si != ri,
        parties.local_depth.len() == parties.parties.len(),
        parties.global_depth < i32::MAX,
        parties.local_depth[si as int].1 < i32::MAX,
        parties.local_depth[ri as int].1 < i32::MAX,
    ensures
        c@ == child(parties@, si as int, ri as int, send_cont@, recv_cont@),
{
    let ghost s = parties@;
    let n = parties.parties.len();
    let mut new_parties: Vec<(Participant, MPSTLocalType)> = Vec::new();
    let mut local_depth: Vec<(Participant, i32)> = Vec::new();
    let mut i: usize = 0;
    while i < n
        invariant
            i <= n,
            n == parties.parties.len(),
            n == parties.local_depth.len(),
            si < n,
            ri < n,
            s == parties@,
            parties.local_depth[si as int].1 < i32::MAX,
            parties.local_depth[ri as int].1 < i32::MAX,
            new_parties.len() == i,
            local_depth.len() == i,
            forall|j: int|
                0 <= j < i ==> (#[trigger] new_parties@[j]).0@ == s.parties[j].0 && new_parties@[j].1@
                    == (if j == si {
                    send_cont@
                } else if j == ri {
                    recv_cont@
                } else {
                    s.parties[j].1
                }),
            forall|j: int|
                0 <= j < i ==> (#[trigger] local_depth@[j]).0@ == s.local_depth[j].0
                    && local_depth@[j].1 == (if j == si || j == ri {
                    s.local_depth[j].1 + 1
                } else {
                    s.local_depth[j].1
                }),
        decreases n - i,
    {
        let p = parties.parties[i].0.clone();
        let q = parties.local_depth[i].0.clone();
        if i == si {
            new_parties.push((p, send_cont.clone()));
            local_depth.push((q, parties.local_depth[i].1 + 1));
        } else if i == ri {
            new_parties.push((p, recv_cont.clone()));
            local_depth.push((q, parties.local_depth[i].1 + 1));
        } else {
            new_parties.push((p, parties.parties[i].1.clone()));
            local_depth.push((q, parties.local_depth[i].1));
        }
        i += 1;
    }
    let c = Parties {
        parties: new_parties,
        global_depth: parties.global_depth + 1,
        local_depth,
        recursive_context: parties.recursive_context.clone(),
    };
    proof {
        let want = child(s, si as int, ri as int, send_cont@, recv_cont@);
        assert(c@.parties =~= want.parties);
        assert(c@.local_depth =~= want.local_depth);
    }
    c
}

/// `first_x_from` finds the first position with a recursion variable, if
/// there is one.
pub proof fn lemma_first_x(s: PartiesSpec, i: int)
    requires
        0 <= i <= s.parties.len(),
    ensures
        i <= first_x_from(s, i) <= s.parties.len(),
        first_x_from(s, i) < s.parties.len() ==> s.parties[first_x_from(s, i)].1 is X,
        forall|j: int| i <= j < first_x_from(s, i) ==> !((#[trigger] s.parties[j]).1 is X),
    decreases s.parties.len() - i,
{
    if i < s.parties.len() && !(s.parties[i].1 is X) {
        lemma_first_x(s, i + 1);
    }
}

/// The first position at which a recursion variable stands, or the
/// number of participants where none does.
fn first_x(parties: &Parties) -> (r: usize)
    ensures
        r == first_x_from(parties@, 0),
        r <= parties.parties.len(),
{
    let mut i: usize = 0;
    while i < parties.parties.len()
        invariant
            i <= parties.parties.len(),
            first_x_from(parties@, 0) == first_x_from(parties@, i as int),
        decreases parties.parties.len() - i,
    {
        match &parties.parties[i].1 {
            MPSTLocalType::X(_, _) => {
                return i;
            },
            _ => {},
        }
        i += 1;
    }
    i
}

/// Whether every participant stands at `End` or at a recursion variable.
fn stands_at_end_or_x(parties: &Parties) -> (b: bool)
    ensures
        b == all_end_or_x(parties@),
{
    let mut i: usize = 0;
    while i < parties.parties.len()
        invariant
            i <= parties.parties.len(),
            forall|j: int|
                0 <= j < i ==> (#[trigger] parties@.parties[j]).1 is End || parties@.parties[j].1 is X,
        decreases parties.parties.len() - i,
    {
        match &parties.parties[i].1 {
            MPSTLocalType::X(_, _) => {},
            MPSTLocalType::End => {},
            _ => {
                assert(!(parties@.parties[i as int].1 is End || parties@.parties[i as int].1 is X));
                return false;
            },
        }
        i += 1;
    }
    true
}

/// Whether some participant stands at a choice of its own.
fn has_select(parties: &Parties) -> (b: bool)
    ensures
        b == (exists|i: int|
            0 <= i < parties@.parties.len() && (#[trigger] parties@.parties[i]).1 is Select),
{
    let mut i: usize = 0;
    while i < parties.parties.len()
        invariant
            i <= parties.parties.len(),
            forall|j: int| 0 <= j < i ==> !((#[trigger] parties@.parties[j]).1 is Select),
        decreases parties.parties.len() - i,
    {
        match &parties.parties[i].1 {
            MPSTLocalType::Select(_, _) => {
                assert(parties@.parties[i as int].1 is Select);
                return true;
            },
            _ => {},
        }
        i += 1;
    }
    false
}

/// Whether some participant stands at `End`.
fn has_end(parties: &Parties) -> (b: bool)
    ensures
        b == !(forall|i: int|
            0 <= i < parties@.parties.len() ==> !((#[trigger] parties@.parties[i]).1 is End)),
{
    let mut i: usize = 0;
    while i < parties.parties.len()
        invariant
            i <= parties.parties.len(),
            forall|j: int| 0 <= j < i ==> !((#[trigger] parties@.parties[j]).1 is End),
        decreases parties.parties.len() - i,
    {
        match &parties.parties[i].1 {
            MPSTLocalType::End => {
                assert(parties@.parties[i as int].1 is End);
                return true;
            },
            _ => {},
        }
        i += 1;
    }
    false
}

/// Whether some participant stands at a recursion variable that refers
/// to no global scope.
fn has_unmapped_x(parties: &Parties) -> (b: bool)
    ensures
        b == (exists|i: int|
            0 <= i < parties@.parties.len() && (#[trigger] parties@.parties[i]).1 is X
                && !is_mapped_x(parties@.parties[i].1)),
{
    let mut i: usize = 0;
    while i < parties.parties.len()
        invariant
            i <= parties.parties.len(),
            forall|j: int|
                0 <= j < i ==> !((#[trigger] parties@.parties[j]).1 is X && !is_mapped_x(
                    parties@.parties[j].1,
                )),
        decreases parties.parties.len() - i,
    {
        match &parties.parties[i].1 {
            MPSTLocalType::X(Some(_), true) => {},
            MPSTLocalType::X(_, _) => {
                assert(parties@.parties[i as int].1 is X && !is_mapped_x(parties@.parties[i as int].1));
                return true;
            },
            _ => {},
        }
        i += 1;
    }
    false
}

/// Whether some participant stands at another recursion variable than
/// the participant at `fx`.
fn has_other_x(parties: &Parties, fx: usize) -> (b: bool)
    requires
        fx < parties.parties.len(),
    ensures
        b == (exists|i: int|
            0 <= i < parties@.parties.len() && (#[trigger] parties@.parties[i]).1 is X
                && parties@.parties[i].1 != parties@.parties[fx as int].1),
{
    let mut i: usize = 0;
    while i < parties.parties.len()
        invariant
            i <= parties.parties.len(),
            fx < parties.parties.len(),
            forall|j: int|
                0 <= j < i ==> !((#[trigger] parties@.parties[j]).1 is X && parties@.parties[j].1
                    != parties@.parties[fx as int].1),
        decreases parties.parties.len() - i,
    {
        match &parties.parties[i].1 {
            MPSTLocalType::X(_, _) => {
                if !parties.parties[i].1.same(&parties.parties[fx].1) {
                    assert(parties@.parties[i as int].1 is X && parties@.parties[i as int].1
                        != parties@.parties[fx as int].1);
                    return true;
                }
            },
            _ => {},
        }
        i += 1;
    }
    false
}

/// The innermost of the scopes from `context` outwards that has the id
/// `g`.
fn find_scope(context: &RecursiveContext, g: i32) -> (r: Option<&RecursiveContext>)
    ensures
        match r {
            Some(scope) => scope_of(context@, g as int) == Some(scope@),
            None => scope_of(context@, g as int) is None,
        },
    decreases context,
{
    if context.global_depth == g {
        Some(context)
    } else {
        match &context.outer {
            Some(outer) => find_scope(outer, g),
            None => None,
        }
    }
}

/// Whether the participants at `End` have not taken a step since the
/// scope `g` was opened.
fn has_aligned_ends(parties: &Parties, g: i32) -> (b: bool)
    requires
        parties@.wf(),
    ensures
        b == ends_aligned(parties@, g as int),
{
    let ghost s = parties@;
    let scope = match find_scope(&parties.recursive_context, g) {
        Some(scope) => scope,
        None => {
            return false;
        },
    };
    proof {
        lemma_scope_of(s.recursive_context, g as int, keys(s.parties));
        assert(keys(scope@.local_depths).len() == scope@.local_depths.len());
    }
    let mut i: usize = 0;
    while i < parties.parties.len()
        invariant
            i <= parties.parties.len(),
            s == parties@,
            scope_of(s.recursive_context, g as int) == Some(scope@),
            parties.local_depth.len() == parties.parties.len(),
            scope.local_depths.len() == parties.parties.len(),
            forall|j: int|
                0 <= j < i && (#[trigger] s.parties[j]).1 is End ==> s.local_depth[j].1
                    == scope@.local_depths[j].1,
        decreases parties.parties.len() - i,
    {
        match &parties.parties[i].1 {
            MPSTLocalType::End => {
                if parties.local_depth[i].1 != scope.local_depths[i].1 {
                    assert(s.parties[i as int].1 is End);
                    return false;
                }
            },
            _ => {},
        }
        i += 1;
    }
    true
}

/// What the merge makes of a state in which no pair could be reduced:
/// the way back to the recursion scope whose variable all participants
/// have reached, or the error: see `closing_result`.
fn closing(parties: &Parties, first: Option<MergeError>) -> (res: Result<GlobalType, MergeError>)
    requires
        parties@.wf(),
    ensures
        result_view(res) == closing_result(parties@, first),
{
    let ghost s = parties@;
    let fx = first_x(parties);
    proof {
        lemma_first_x(s, 0);
    }
    if stands_at_end_or_x(parties) && fx < parties.parties.len() {
        if has_unmapped_x(parties) {
            return Err(MergeError::MalformedLocal);
        }
        if has_other_x(parties, fx) {
            return Err(MergeError::NoReducibleDual);
        }
        match &parties.parties[fx].1 {
            MPSTLocalType::X(Some(g), true) => {
                if !has_end(parties) || has_aligned_ends(parties, *g) {
                    Ok(GlobalType::X(*g))
                } else {
                    Err(MergeError::UnalignedEnd)
                }
            },
            _ => {
                Err(MergeError::MalformedLocal)
            },
        }
    } else {
        match first {
            Some(e) => Err(e),
            None => {
                if has_select(parties) {
                    Err(MergeError::UnmatchedLabel)
                } else {
                    Err(MergeError::NoReducibleDual)
                }
            },
        }
    }
}

/// The protocol that starts with the choice of the sender at `si`, taken
/// by the receiver at `ri`.
fn reduce_at(parties: &Parties, si: usize, ri: usize) -> (res: Result<GlobalType, MergeError>)
    requires
        parties@.wf(),
        parties@.within_budget(),
        si < parties.parties.len(),
        ri < parties.parties.len(),
        parties@.parties[si as int].1 is Select,
        parties@.parties[ri as int].1 is Branch,
    ensures
        result_view(res) == reduce_result(parties@, si as int, ri as int),
    decreases total_size(parties@.parties), 1nat, 0nat,
{
    let ghost s = parties@;
    match (&parties.parties[si].1, &parties.parties[ri].1) {
        (MPSTLocalType::Select(to, sends), MPSTLocalType::Branch(from, recvs)) => {
            let to_ok = to.is_anonymous() || to.same_as(&parties.parties[ri].0);
            let from_ok = from.is_anonymous() || from.same_as(&parties.parties[si].0);
            if !to_ok || !from_ok {
                return Err(MergeError::ParticipantMismatch);
            }
            let ghost sv = conts_view(sends@);
            let ghost rv = conts_view(recvs@);
            let mut new_conts: Vec<(String, GlobalType)> = Vec::new();
            let mut k: usize = 0;
            assert(forall|rest: Seq<(Label, GlobalSpec)>|
                #![trigger global_conts_view(new_conts@) + rest]
                global_conts_view(new_conts@) + rest =~= rest);
            while k < sends.len()
                invariant
                    k <= sends.len(),
                    s == parties@,
                    s.wf(),
                    s.within_budget(),
                    si < parties.parties.len(),
                    ri < parties.parties.len(),
                    si != ri,
                    s.parties[si as int].1 is Select,
                    s.parties[ri as int].1 is Branch,
                    partner_ok(s.parties[si as int].1->Select_0, s.parties[ri as int].0),
                    partner_ok(s.parties[ri as int].1->Branch_0, s.parties[si as int].0),
                    sv == conts_view(sends@),
                    rv == conts_view(recvs@),
                    sv == conts_of(s.parties[si as int].1),
                    rv == conts_of(s.parties[ri as int].1),
                    conts_result(s, si as int, ri as int, 0) == (match conts_result(
                        s,
                        si as int,
                        ri as int,
                        k as nat,
                    ) {
                        Ok(rest) => Ok(global_conts_view(new_conts@) + rest),
                        Err(e) => Err(e),
                    }),
                decreases sends.len() - k,
            {
                let m = match find_label_in(recvs, &sends[k].0) {
                    Some(m) => m,
                    None => {
                        return Err(MergeError::UnmatchedLabel);
                    },
                };
                proof {
                    lemma_child_smaller(s, si as int, ri as int, k as int, m as int);
                    lemma_child_keeps(s, si as int, ri as int, k as int, m as int);
                }
                let next = make_child(parties, si, ri, &sends[k].1, &recvs[m].1);
                match merge_state(next) {
                    Ok(gt) => {
                        let ghost done = global_conts_view(new_conts@);
                        new_conts.push((sends[k].0.clone(), gt));
                        proof {
                            let now = global_conts_view(new_conts@);
                            match conts_result(s, si as int, ri as int, (k + 1) as nat) {
                                Ok(rest) => {
                                    assert(done + (seq![(sv[k as int].0, gt@)] + rest) =~= now + rest);
                                },
                                Err(_) => {},
                            }
                        }
                    },
                    Err(e) => {
                        return Err(e);
                    },
                }
                k += 1;
            }
            Ok(
                GlobalType::Select(
                    parties.parties[si].0.clone(),
                    parties.parties[ri].0.clone(),
                    new_conts,
                ),
            )
        },
        _ => Err(MergeError::NoReducibleDual),
    }
}

/// Reduces one pair: the protocol that starts with the step that the
/// participants `one` and `other` take together, whichever of them is the
/// sender, and goes on, for each label that the sender offers, with the
/// merge of the state after that label was exchanged.
///
/// It is an error where the two name other partners than each other,
/// where the receiver does not accept a label that the sender offers,
/// and where one of the states that follow does not merge.
pub fn reduce_then_merge(one: Participant, other: Participant, parties: &Parties) -> (res: Result<
    GlobalType,
    MergeError,
>)
    requires
        parties@.wf(),
        parties@.within_budget(),
    ensures
        result_view(res) == pair_result(parties@, one@, other@),
    decreases total_size(parties@.parties), 2nat, 0nat,
{
    let ghost s = parties@;
    let (i, found_one) = locate(&parties.parties, &one);
    let (j, found_other) = locate(&parties.parties, &other);
    assert(firsts(parties.parties@) =~= keys(s.parties));
    if !found_one || !found_other {
        return Err(MergeError::NoReducibleDual);
    }
    match (&parties.parties[i].1, &parties.parties[j].1) {
        (MPSTLocalType::Select(_, _), MPSTLocalType::Branch(_, _)) => reduce_at(parties, i, j),
        (MPSTLocalType::Branch(_, _), MPSTLocalType::Select(_, _)) => reduce_at(parties, j, i),
        _ => Err(MergeError::NoReducibleDual),
    }
}

/// The protocol of a state of the merge: see `state_result`.
pub fn merge_state(parties: Parties) -> (res: Result<GlobalType, MergeError>)
    requires
        parties@.wf(),
        parties@.within_budget(),
    ensures
        result_view(res) == state_result(parties@),
    decreases total_size(parties@.parties), 3nat, 0nat,
{
    let ghost s = parties@;
    if parties.is_end_state() {
        return Ok(GlobalType::End);
    }
    if parties.can_unfold() {
        proof {
            lemma_unfold_smaller(s);
            lemma_unfold_keeps(s);
        }
        let id = parties.global_depth;
        let (_, inner) = unwrap_rec(parties);
        return match merge_state(inner) {
            Ok(gt) => Ok(GlobalType::RecX(id, Box::new(gt))),
            Err(e) => Err(e),
        };
    }
    let duals = enumerate_duals(&parties);
    let ghost dp = dual_pairs(s);
    let mut first: Option<MergeError> = None;
    let mut k: usize = 0;
    proof {
        lemma_duals_upto(s, s.parties.len());
        assert(pairs_view(duals@).len() == roles_at(s, dp).len());
    }
    while k < duals.len()
        invariant
            k <= duals.len(),
            s == parties@,
            s.wf(),
            s.within_budget(),
            !s.is_end_state(),
            !can_unfold(s),
            dp == dual_pairs(s),
            duals.len() == dp.len(),
            pairs_view(duals@) == roles_at(s, dp),
            forall|x: int| 0 <= x < dp.len() ==> is_dual(s, (#[trigger] dp[x]).0, dp[x].1),
            k == 0 ==> first is None,
            duals_result(s, dp, 0) == (match duals_result(s, dp, k as nat) {
                Ok(g) => Ok(g),
                Err(e) => if k == 0 {
                    Err(e)
                } else {
                    Err(first)
                },
            }),
        decreases duals.len() - k,
    {
        proof {
            let pair = dp[k as int];
            lemma_rank_of_member(keys(s.parties), pair.0, 0);
            lemma_rank_of_member(keys(s.parties), pair.1, 0);
            assert(pairs_view(duals@)[k as int] == roles_at(s, dp)[k as int]);
            assert(pair_result(s, duals@[k as int].0@, duals@[k as int].1@) == reduce_result(
                s,
                pair.0,
                pair.1,
            ));
        }
        match reduce_then_merge(duals[k].0.clone(), duals[k].1.clone(), &parties) {
            Ok(gt) => {
                return Ok(gt);
            },
            Err(e) => {
                if first.is_none() {
                    first = Some(e);
                }
            },
        }
        k += 1;
    }
    closing(&parties, first)
}

/// Merges the local types of all participants into the global type of
/// their protocol: see `merge_result`.
pub fn merge_locals(parties: Parties) -> (res: Result<GlobalType, MergeError>)
    requires
        parties@.wf(),
        parties@.within_budget(),
    ensures
        result_view(res) == merge_result(parties@),
{
    if !parties.has_valid_input() {
        return Err(MergeError::MalformedLocal);
    }
    merge_state(parties)
}

/// Merges the local types where the state is one that the merge can work
/// on, and says `None` where it is not.
pub fn try_merge_locals(parties: Parties) -> (res: Option<Result<GlobalType, MergeError>>)
    ensures
        match res {
            Some(r) => parties@.wf() && parties@.within_budget() && result_view(r) == merge_result(
                parties@,
            ),
            None => !(parties@.wf() && parties@.within_budget()),
        },
{
    if parties.is_workable() {
        Some(merge_locals(parties))
    } else {
        None
    }
}

/// Merges the local types of the participants listed: the merge of the
/// state that `Parties::new` makes of the list. It says `None` where the
/// local types have more nodes together than a depth can count.
pub fn merge_local_types(parties: Vec<(Participant, MPSTLocalType)>) -> (res: Option<
    Result<GlobalType, MergeError>,
>)
    ensures
        match res {
            Some(r) => result_view(r) == merge_result(crate::parties::initial(parties_view(parties@)))
                && total_size(crate::parties::initial(parties_view(parties@)).parties) <= i32::MAX,
            None => total_size(crate::parties::initial(parties_view(parties@)).parties) > i32::MAX,
        },
{
    let state = Parties::new(parties);
    let limit: u64 = 0x7fff_ffff;
    match state.count_nodes(limit) {
        Some(_) => Some(merge_locals(state)),
        None => None,
    }
}

} // verus!
