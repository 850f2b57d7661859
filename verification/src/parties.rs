//! The working state of the merge: the residual local type of each
//! participant, in the order of participants, with the depth bookkeeping.

use crate::order::role_lt;
use crate::session_type::{size, LocalSpec, MPSTLocalType, Participant, Role};
use vstd::prelude::*;

verus! {

/// The keys of an association list.
pub open spec fn keys<V>(s: Seq<(Role, V)>) -> Seq<Role> {
    Seq::new(s.len(), |i: int| s[i].0)
}

/// The participants stand in strictly ascending order, so none occurs
/// twice.
pub open spec fn ascending(ks: Seq<Role>) -> bool {
    forall|i: int, j: int| 0 <= i < j < ks.len() ==> role_lt(ks[i], ks[j])
}

/// The first position from `i` on whose participant does not come before
/// `k`.
pub open spec fn rank_from(ks: Seq<Role>, k: Role, i: int) -> int
    decreases ks.len() - i,
{
    if 0 <= i < ks.len() && role_lt(ks[i], k) {
        rank_from(ks, k, i + 1)
    } else {
        i
    }
}

/// The position of `k` in an ascending list of participants, or the one
/// at which it would have to be inserted.
pub open spec fn rank(ks: Seq<Role>, k: Role) -> int {
    rank_from(ks, k, 0)
}

/// The association list with `v` as the value of `k`: in place of the
/// value that `k` had, or at the position that keeps the order.
pub open spec fn put<V>(s: Seq<(Role, V)>, k: Role, v: V) -> Seq<(Role, V)> {
    let r = rank(keys(s), k);
    if 0 <= r < s.len() && s[r].0 == k {
        s.update(r, (k, v))
    } else {
        s.insert(r, (k, v))
    }
}

/// The association list in the order of participants that holds, for each
/// participant of `l`, the value that `l` gives last for it.
pub open spec fn assoc_from<V>(l: Seq<(Role, V)>) -> Seq<(Role, V)>
    decreases l.len(),
{
    if l.len() == 0 {
        Seq::empty()
    } else {
        put(assoc_from(l.drop_last()), l.last().0, l.last().1)
    }
}

/// The same participants, each with the value 0.
pub open spec fn zeroed<V>(s: Seq<(Role, V)>) -> Seq<(Role, int)> {
    Seq::new(s.len(), |i: int| (s[i].0, 0int))
}

/// The position found by `rank_from` lies between its start and the end.
pub proof fn lemma_rank_bounds(ks: Seq<Role>, k: Role, i: int)
    requires
        0 <= i <= ks.len(),
    ensures
        i <= rank_from(ks, k, i) <= ks.len(),
        forall|j: int| i <= j < rank_from(ks, k, i) ==> role_lt(ks[j], k),
        rank_from(ks, k, i) < ks.len() ==> !role_lt(ks[rank_from(ks, k, i)], k),
    decreases ks.len() - i,
{
    if i < ks.len() && role_lt(ks[i], k) {
        lemma_rank_bounds(ks, k, i + 1);
    }
}

/// Giving a participant a value keeps the order of participants.
pub proof fn lemma_put_ascending<V>(s: Seq<(Role, V)>, k: Role, v: V)
    requires
        ascending(keys(s)),
    ensures
        ascending(keys(put(s, k, v))),
{
    let ks = keys(s);
    let r = rank(ks, k);
    lemma_rank_bounds(ks, k, 0);
    let out = put(s, k, v);
    if 0 <= r < s.len() && s[r].0 == k {
        assert(keys(out) =~= ks);
    } else {
        assert forall|i: int, j: int| 0 <= i < j < keys(out).len() implies role_lt(
            keys(out)[i],
            keys(out)[j],
        ) by {
            if j == r {
                assert(keys(out)[i] == ks[i]);
            } else if i == r {
                crate::order::lemma_role_lt_total(ks[r], k);
                if j - 1 > r {
                    crate::order::lemma_role_lt_transitive(k, ks[r], ks[j - 1]);
                }
            } else {
                let a = if i < r { i } else { i - 1 };
                let b = if j < r { j } else { j - 1 };
                assert(keys(out)[i] == ks[a]);
                assert(keys(out)[j] == ks[b]);
            }
        }
    }
}

/// The list built by `assoc_from` is in the order of participants.
pub proof fn lemma_assoc_from_ascending<V>(l: Seq<(Role, V)>)
    ensures
        ascending(keys(assoc_from(l))),
    decreases l.len(),
{
    if l.len() > 0 {
        lemma_assoc_from_ascending(l.drop_last());
        lemma_put_ascending(assoc_from(l.drop_last()), l.last().0, l.last().1);
    }
}

/// What the merge remembers of the recursion scope that it opened last:
/// the local depth of each participant and the global depth, as they were
/// when the scope was opened, and the same of the scope around it.
pub ghost struct ContextSpec {
    pub local_depths: Seq<(Role, int)>,
    pub global_depth: int,
    pub outer: Option<Box<ContextSpec>>,
}

/// The depth records of the scope and of every scope around it are those
/// of the participants `ks`, in the same order.
pub open spec fn context_wf(c: ContextSpec, ks: Seq<Role>) -> bool
    decreases c,
{
    keys(c.local_depths) == ks && match c.outer {
        Some(outer) => context_wf(*outer, ks),
        None => true,
    }
}

/// The innermost of the scopes from `c` outwards that was opened at the
/// global depth `g`, which is the scope with the id `g`.
pub open spec fn scope_of(c: ContextSpec, g: int) -> Option<ContextSpec>
    decreases c,
{
    if c.global_depth == g {
        Some(c)
    } else {
        match c.outer {
            Some(outer) => scope_of(*outer, g),
            None => None,
        }
    }
}

/// A scope that is found among well-formed scopes has the depth records
/// of the same participants.
pub proof fn lemma_scope_of(c: ContextSpec, g: int, ks: Seq<Role>)
    requires
        context_wf(c, ks),
    ensures
        match scope_of(c, g) {
            Some(scope) => keys(scope.local_depths) == ks && scope.global_depth == g,
            None => true,
        },
    decreases c,
{
    if c.global_depth != g {
        if let Some(outer) = c.outer {
            lemma_scope_of(*outer, g, ks);
        }
    }
}

/// The mathematical value of the state of a merge.
pub ghost struct PartiesSpec {
    /// The residual local type of each participant.
    pub parties: Seq<(Role, LocalSpec)>,
    /// The number of protocol steps made so far.
    pub global_depth: int,
    /// For each participant, the number of steps that it took part in.
    pub local_depth: Seq<(Role, int)>,
    pub recursive_context: ContextSpec,
}

/// The number of nodes of all residual local types together.
pub open spec fn total_size(ps: Seq<(Role, LocalSpec)>) -> nat
    decreases ps.len(),
{
    if ps.len() == 0 {
        0
    } else {
        total_size(ps.drop_last()) + size(ps.last().1)
    }
}

impl PartiesSpec {
    /// The participants stand in their order, and the depth records are
    /// those of the same participants in the same order.
    pub open spec fn wf(self) -> bool {
        &&& ascending(keys(self.parties))
        &&& keys(self.local_depth) == keys(self.parties)
        &&& context_wf(self.recursive_context, keys(self.parties))
    }

    /// No depth can leave the range of a machine integer while the merge
    /// works the residual types off: each step adds 1 to a depth and
    /// takes at least 1 from the number of nodes.
    pub open spec fn within_budget(self) -> bool {
        &&& self.global_depth + total_size(self.parties) <= i32::MAX
        &&& forall|i: int|
            0 <= i < self.local_depth.len() ==> (#[trigger] self.local_depth[i]).1 + total_size(
                self.parties,
            ) <= i32::MAX
    }

    /// All residual types are `End`.
    pub open spec fn is_end_state(self) -> bool {
        forall|i: int| 0 <= i < self.parties.len() ==> (#[trigger] self.parties[i]).1 is End
    }
}

/// The state in which the merge of the local types `l` starts.
pub open spec fn initial(l: Seq<(Role, LocalSpec)>) -> PartiesSpec {
    let ps = assoc_from(l);
    PartiesSpec {
        parties: ps,
        global_depth: 0,
        local_depth: zeroed(ps),
        recursive_context: ContextSpec { local_depths: zeroed(ps), global_depth: 0, outer: None },
    }
}

/// The mathematical value of a list of participants with their local
/// types.
pub open spec fn parties_view(v: Seq<(Participant, MPSTLocalType)>) -> Seq<(Role, LocalSpec)> {
    Seq::new(v.len(), |i: int| (v[i].0@, v[i].1@))
}

/// The mathematical value of a list of participants with their depths.
pub open spec fn depths_view(v: Seq<(Participant, i32)>) -> Seq<(Role, int)> {
    Seq::new(v.len(), |i: int| (v[i].0@, v[i].1 as int))
}

/// The mathematical values of a list of participants.
pub open spec fn roles_view(v: Seq<Participant>) -> Seq<Role> {
    Seq::new(v.len(), |i: int| v[i]@)
}

/// The participants of a list of pairs.
pub open spec fn firsts<T>(v: Seq<(Participant, T)>) -> Seq<Role> {
    Seq::new(v.len(), |i: int| v[i].0@)
}

/// Each participant of the list with the depth 0.
pub open spec fn at_depth_zero(ks: Seq<Role>) -> Seq<(Role, int)> {
    Seq::new(ks.len(), |i: int| (ks[i], 0int))
}

/// What the merge remembers of the recursion scope that it opened last.
#[derive(Debug)]
pub struct RecursiveContext {
    /// The participants in their order, each with its local depth at the
    /// time the scope was opened.
    pub local_depths: Vec<(Participant, i32)>,
    /// The global depth at that time, which is the id of the scope.
    pub global_depth: i32,
    /// The scope around this one, if there is one.
    pub outer: Option<Box<RecursiveContext>>,
}

/// The state of a merge: what is left of the local type of each
/// participant, and how deep the merge has got.
#[derive(Debug)]
pub struct Parties {
    /// The participants in their order, each with its residual local type.
    pub parties: Vec<(Participant, MPSTLocalType)>,
    /// The number of protocol steps made so far.
    pub global_depth: i32,
    /// The same participants in the same order, each with its local depth.
    pub local_depth: Vec<(Participant, i32)>,
    /// The depths at which the innermost recursion scope was opened.
    pub recursive_context: RecursiveContext,
}

/// The mathematical value of a recursion scope.
pub open spec fn context_view(c: RecursiveContext) -> ContextSpec
    decreases c,
{
    ContextSpec {
        local_depths: depths_view(c.local_depths@),
        global_depth: c.global_depth as int,
        outer: match c.outer {
            Some(outer) => Some(Box::new(context_view(*outer))),
            None => None,
        },
    }
}

impl View for RecursiveContext {
    type V = ContextSpec;

    open spec fn view(&self) -> ContextSpec {
        context_view(*self)
    }
}

impl View for Parties {
    type V = PartiesSpec;

    open spec fn view(&self) -> PartiesSpec {
        PartiesSpec {
            parties: parties_view(self.parties@),
            global_depth: self.global_depth as int,
            local_depth: depths_view(self.local_depth@),
            recursive_context: self.recursive_context@,
        }
    }
}

/// The position of `p` in the list, or the one at which it would have to
/// be inserted, and whether `p` stands there.
pub fn locate<T>(v: &Vec<(Participant, T)>, p: &Participant) -> (r: (usize, bool))
    ensures
        r.0 == rank(firsts(v@), p@),
        r.0 <= v.len(),
        r.1 == (r.0 < v.len() && firsts(v@)[r.0 as int] == p@),
{
    let mut i: usize = 0;
    while i < v.len() && v[i].0.precedes(p)
        invariant
            i <= v.len(),
            rank(firsts(v@), p@) == rank_from(firsts(v@), p@, i as int),
        decreases v.len() - i,
    {
        i += 1;
    }
    let found = i < v.len() && v[i].0.same_as(p);
    (i, found)
}

/// A copy of the list of depths.
pub fn clone_depths(v: &Vec<(Participant, i32)>) -> (out: Vec<(Participant, i32)>)
    ensures
        depths_view(out@) == depths_view(v@),
{
    let mut out: Vec<(Participant, i32)> = Vec::new();
    let mut i: usize = 0;
    while i < v.len()
        invariant
            i <= v.len(),
            out.len() == i,
            forall|j: int| 0 <= j < i ==> out@[j].0@ == v@[j].0@ && out@[j].1 == v@[j].1,
        decreases v.len() - i,
    {
        out.push((v[i].0.clone(), v[i].1));
        i += 1;
    }
    out
}

impl Clone for RecursiveContext {
    fn clone(&self) -> (res: RecursiveContext)
        ensures
            res@ == self@,
        decreases self,
    {
        RecursiveContext {
            local_depths: clone_depths(&self.local_depths),
            global_depth: self.global_depth,
            outer: match &self.outer {
                Some(outer) => Some(Box::new((**outer).clone())),
                None => None,
            },
        }
    }
}

/// A copy of the list of participants with their local types.
pub fn clone_parties(v: &Vec<(Participant, MPSTLocalType)>) -> (out: Vec<(Participant, MPSTLocalType)>)
    ensures
        parties_view(out@) == parties_view(v@),
{
    let mut out: Vec<(Participant, MPSTLocalType)> = Vec::new();
    let mut i: usize = 0;
    while i < v.len()
        invariant
            i <= v.len(),
            out.len() == i,
            forall|j: int| 0 <= j < i ==> out@[j].0@ == v@[j].0@ && out@[j].1@ == v@[j].1@,
        decreases v.len() - i,
    {
        out.push((v[i].0.clone(), v[i].1.clone()));
        i += 1;
    }
    out
}

impl Clone for Parties {
    fn clone(&self) -> (res: Parties)
        ensures
            res@ == self@,
    {
        Parties {
            parties: clone_parties(&self.parties),
            global_depth: self.global_depth,
            local_depth: clone_depths(&self.local_depth),
            recursive_context: self.recursive_context.clone(),
        }
    }
}

impl RecursiveContext {
    /// The context before any scope was opened: every participant at
    /// depth 0.
    pub fn init(participants: &[Participant]) -> (ctx: RecursiveContext)
        ensures
            ctx@ == (ContextSpec {
                local_depths: assoc_from(at_depth_zero(roles_view(participants@))),
                global_depth: 0,
                outer: None,
            }),
    {
        let mut depths: Vec<(Participant, i32)> = Vec::new();
        let mut i: usize = 0;
        let ghost all = at_depth_zero(roles_view(participants@));
        while i < participants.len()
            invariant
                i <= participants.len(),
                all == at_depth_zero(roles_view(participants@)),
                depths_view(depths@) == assoc_from(all.take(i as int)),
            decreases participants.len() - i,
        {
            let p = participants[i].clone();
            let (pos, found) = locate(&depths, &p);
            let ghost before = depths_view(depths@);
            assert(firsts(depths@) =~= keys(before));
            if found {
                depths[pos] = (p, 0);
            } else {
                depths.insert(pos, (p, 0));
            }
            proof {
                assert(all.take(i + 1).drop_last() =~= all.take(i as int));
            }
            i += 1;
        }
        assert(all.take(participants.len() as int) =~= all);
        RecursiveContext { local_depths: depths, global_depth: 0, outer: None }
    }
}

/// The depth records of the participants of `l`, built from the
/// participants alone, are those of the association list built from `l`.
pub proof fn lemma_assoc_zeroed<V>(l: Seq<(Role, V)>)
    ensures
        assoc_from(at_depth_zero(keys(l))) == zeroed(assoc_from(l)),
    decreases l.len(),
{
    let z = at_depth_zero(keys(l));
    if l.len() == 0 {
    } else {
        lemma_assoc_zeroed(l.drop_last());
        assert(z.drop_last() =~= at_depth_zero(keys(l.drop_last())));
        let a = assoc_from(l.drop_last());
        let k = l.last().0;
        assert(keys(zeroed(a)) =~= keys(a));
        lemma_rank_bounds(keys(a), k, 0);
    }
}

/// Replacing one residual type changes the number of nodes by the
/// difference of the two.
pub proof fn lemma_total_size_update(ps: Seq<(Role, LocalSpec)>, i: int, e: (Role, LocalSpec))
    requires
        0 <= i < ps.len(),
    ensures
        total_size(ps.update(i, e)) == total_size(ps) - size(ps[i].1) + size(e.1),
        size(ps[i].1) <= total_size(ps),
    decreases ps.len(),
{
    if i == ps.len() - 1 {
        assert(ps.update(i, e).drop_last() =~= ps.drop_last());
    } else {
        lemma_total_size_update(ps.drop_last(), i, e);
        assert(ps.update(i, e).drop_last() =~= ps.drop_last().update(i, e));
    }
}

/// Participants of which each comes before the next are ascending.
proof fn lemma_adjacent_ascending(ks: Seq<Role>, n: int)
    requires
        0 <= n <= ks.len(),
        forall|i: int| 0 <= i < n - 1 ==> role_lt(#[trigger] ks[i], ks[i + 1]),
    ensures
        forall|i: int, j: int| 0 <= i < j < n ==> role_lt(ks[i], ks[j]),
    decreases n,
{
    if n > 1 {
        lemma_adjacent_ascending(ks, n - 1);
        assert forall|i: int, j: int| 0 <= i < j < n implies role_lt(ks[i], ks[j]) by {
            if j == n - 1 {
                if i < n - 2 {
                    crate::order::lemma_role_lt_transitive(ks[i], ks[n - 2], ks[j]);
                }
            }
        }
    }
}

impl MPSTLocalType {
    /// Counts the nodes of the continuations on top of `acc`, up to
    /// `limit`.
    fn count_conts(conts: &Vec<(String, MPSTLocalType)>, acc: u64, limit: u64) -> (r: Option<u64>)
        requires
            acc <= limit,
        ensures
            match r {
                Some(n) => n == acc + crate::session_type::conts_size(
                    crate::session_type::conts_view(conts@),
                ) && n <= limit,
                None => acc + crate::session_type::conts_size(crate::session_type::conts_view(conts@))
                    > limit,
            },
        decreases conts,
    {
        let ghost cv = crate::session_type::conts_view(conts@);
        let mut total: u64 = acc;
        let mut i: usize = 0;
        while i < conts.len()
            invariant
                i <= conts.len(),
                cv == crate::session_type::conts_view(conts@),
                total <= limit,
                total == acc + crate::session_type::conts_size(cv.take(i as int)),
            decreases conts.len() - i,
        {
            proof {
                assert(cv.take(i + 1).drop_last() =~= cv.take(i as int));
                lemma_conts_size_prefix(cv, i + 1);
            }
            match conts[i].1.count_nodes(total, limit) {
                Some(n) => {
                    total = n;
                },
                None => {
                    return None;
                },
            }
            i += 1;
        }
        assert(cv.take(conts.len() as int) =~= cv);
        Some(total)
    }

    /// Counts the nodes of the type on top of `acc`: the sum, or `None`
    /// where it is more than `limit`.
    pub fn count_nodes(&self, acc: u64, limit: u64) -> (r: Option<u64>)
        requires
            acc <= limit,
        ensures
            match r {
                Some(n) => n == acc + size(self@) && n <= limit,
                None => acc + size(self@) > limit,
            },
        decreases self,
    {
        if acc == limit {
            return None;
        }
        match self {
            MPSTLocalType::Select(_, conts) => MPSTLocalType::count_conts(conts, acc + 1, limit),
            MPSTLocalType::Branch(_, conts) => MPSTLocalType::count_conts(conts, acc + 1, limit),
            MPSTLocalType::RecX { cont, .. } => cont.count_nodes(acc + 1, limit),
            _ => Some(acc + 1),
        }
    }
}

/// A prefix of a list of continuations has no more nodes than the list.
pub proof fn lemma_conts_size_prefix(cv: Seq<(crate::session_type::Label, LocalSpec)>, n: int)
    requires
        0 <= n <= cv.len(),
    ensures
        crate::session_type::conts_size(cv.take(n)) <= crate::session_type::conts_size(cv),
    decreases cv.len(),
{
    if n == cv.len() {
        assert(cv.take(n) =~= cv);
    } else {
        lemma_conts_size_prefix(cv.drop_last(), n);
        assert(cv.drop_last().take(n) =~= cv.take(n));
    }
}

/// A prefix of the parties has no more nodes than all of them.
pub proof fn lemma_total_size_prefix(ps: Seq<(Role, LocalSpec)>, n: int)
    requires
        0 <= n <= ps.len(),
    ensures
        total_size(ps.take(n)) <= total_size(ps),
    decreases ps.len(),
{
    if n == ps.len() {
        assert(ps.take(n) =~= ps);
    } else {
        lemma_total_size_prefix(ps.drop_last(), n);
        assert(ps.drop_last().take(n) =~= ps.take(n));
    }
}

impl Parties {
    /// The state in which the merge of the given local types starts: the
    /// participants in their order, each with the local type that the
    /// list gives last for it, at depth 0.
    pub fn new(parties: Vec<(Participant, MPSTLocalType)>) -> (res: Parties)
        ensures
            res@ == initial(parties_view(parties@)),
            res@.wf(),
            total_size(res@.parties) <= i32::MAX ==> res@.within_budget(),
    {
        let ghost all = parties_view(parties@);
        let mut sorted: Vec<(Participant, MPSTLocalType)> = Vec::new();
        let mut names: Vec<Participant> = Vec::new();
        let mut i: usize = 0;
        while i < parties.len()
            invariant
                i <= parties.len(),
                all == parties_view(parties@),
                parties_view(sorted@) == assoc_from(all.take(i as int)),
                names.len() == i,
                forall|j: int| 0 <= j < i ==> names@[j]@ == parties@[j].0@,
            decreases parties.len() - i,
        {
            let p = parties[i].0.clone();
            let t = parties[i].1.clone();
            names.push(parties[i].0.clone());
            let (pos, found) = locate(&sorted, &p);
            let ghost before = parties_view(sorted@);
            assert(firsts(sorted@) =~= keys(before));
            if found {
                sorted[pos] = (p, t);
            } else {
                sorted.insert(pos, (p, t));
            }
            proof {
                assert(all.take(i + 1).drop_last() =~= all.take(i as int));
            }
            i += 1;
        }
        let recursive_context = RecursiveContext::init(names.as_slice());
        let local_depth = clone_depths(&recursive_context.local_depths);
        proof {
            assert(all.take(parties.len() as int) =~= all);
            assert(roles_view(names@) =~= keys(all));
            lemma_assoc_zeroed(all);
            lemma_assoc_from_ascending(all);
            assert(keys(zeroed(assoc_from(all))) =~= keys(assoc_from(all)));
        }
        Parties { parties: sorted, global_depth: 0, local_depth, recursive_context }
    }

    /// Whether every participant has reached `End`.
    pub fn is_end_state(&self) -> (b: bool)
        ensures
            b == self@.is_end_state(),
    {
        let mut i: usize = 0;
        while i < self.parties.len()
            invariant
                i <= self.parties.len(),
                forall|j: int| 0 <= j < i ==> (#[trigger] self@.parties[j]).1 is End,
            decreases self.parties.len() - i,
        {
            match &self.parties[i].1 {
                MPSTLocalType::End => {},
                _ => {
                    assert(!(self@.parties[i as int].1 is End));
                    return false;
                },
            }
            i += 1;
        }
        true
    }

    /// Whether the depth records are those of the participants of the
    /// state, in the same order.
    fn same_participants(&self, depths: &Vec<(Participant, i32)>) -> (b: bool)
        ensures
            b == (keys(depths_view(depths@)) == keys(self@.parties)),
    {
        if depths.len() != self.parties.len() {
            assert(keys(depths_view(depths@)).len() != keys(self@.parties).len());
            return false;
        }
        let mut i: usize = 0;
        while i < depths.len()
            invariant
                i <= depths.len(),
                depths.len() == self.parties.len(),
                forall|j: int| 0 <= j < i ==> keys(depths_view(depths@))[j] == keys(self@.parties)[j],
            decreases depths.len() - i,
        {
            if !depths[i].0.same_as(&self.parties[i].0) {
                assert(keys(depths_view(depths@))[i as int] != keys(self@.parties)[i as int]);
                return false;
            }
            i += 1;
        }
        assert(keys(depths_view(depths@)) =~= keys(self@.parties));
        true
    }

    /// Whether the depth records of the scope and of every scope around
    /// it are those of the participants of the state, in the same order.
    fn has_participants(&self, context: &RecursiveContext) -> (b: bool)
        ensures
            b == context_wf(context@, keys(self@.parties)),
        decreases context,
    {
        if !self.same_participants(&context.local_depths) {
            return false;
        }
        match &context.outer {
            Some(outer) => self.has_participants(outer),
            None => true,
        }
    }

    /// Whether the participants stand in their order.
    fn is_ascending(&self) -> (b: bool)
        ensures
            b == ascending(keys(self@.parties)),
    {
        let ghost ks = keys(self@.parties);
        let mut i: usize = 1;
        while i < self.parties.len()
            invariant
                1 <= i,
                ks == keys(self@.parties),
                forall|j: int| 0 <= j < i - 1 && j < ks.len() - 1 ==> role_lt(#[trigger] ks[j], ks[j + 1]),
            decreases self.parties.len() - i,
        {
            if !self.parties[i - 1].0.precedes(&self.parties[i].0) {
                assert(!role_lt(ks[i - 1], ks[i as int]));
                return false;
            }
            i += 1;
        }
        proof {
            lemma_adjacent_ascending(ks, ks.len() as int);
        }
        true
    }

    /// The number of nodes of all residual types together, or `None`
    /// where it is more than `limit`.
    pub fn count_nodes(&self, limit: u64) -> (r: Option<u64>)
        ensures
            match r {
                Some(n) => n == total_size(self@.parties) && n <= limit,
                None => total_size(self@.parties) > limit,
            },
    {
        let ghost ps = self@.parties;
        let mut total: u64 = 0;
        let mut i: usize = 0;
        while i < self.parties.len()
            invariant
                i <= self.parties.len(),
                ps == self@.parties,
                total <= limit,
                total == total_size(ps.take(i as int)),
            decreases self.parties.len() - i,
        {
            proof {
                assert(ps.take(i + 1).drop_last() =~= ps.take(i as int));
                lemma_total_size_prefix(ps, i + 1);
            }
            match self.parties[i].1.count_nodes(total, limit) {
                Some(n) => {
                    total = n;
                },
                None => {
                    return None;
                },
            }
            i += 1;
        }
        assert(ps.take(self.parties.len() as int) =~= ps);
        Some(total)
    }

    /// Whether the state is one that the merge can work on: see `wf` and
    /// `within_budget`.
    pub fn is_workable(&self) -> (b: bool)
        ensures
            b == (self@.wf() && self@.within_budget()),
    {
        if !self.is_ascending() || !self.same_participants(&self.local_depth)
            || !self.has_participants(&self.recursive_context) {
            return false;
        }
        let limit: u64 = 0xffff_ffff;
        let total = match self.count_nodes(limit) {
            Some(n) => n,
            None => {
                return false;
            },
        };
        let room: i64 = 0x7fff_ffff - (total as i64);
        if self.global_depth as i64 > room {
            return false;
        }
        let mut i: usize = 0;
        while i < self.local_depth.len()
            invariant
                i <= self.local_depth.len(),
                room == i32::MAX - total_size(self@.parties),
                forall|j: int|
                    0 <= j < i ==> (#[trigger] self@.local_depth[j]).1 + total_size(self@.parties)
                        <= i32::MAX,
            decreases self.local_depth.len() - i,
        {
            if self.local_depth[i].1 as i64 > room {
                assert(self@.local_depth[i as int].1 + total_size(self@.parties) > i32::MAX);
                return false;
            }
            i += 1;
        }
        true
    }
}

} // verus!
