//! Participants and the local session type of one participant.

use vstd::prelude::*;

verus! {

/// The mathematical value of a participant: its role name, or `None` for
/// the anonymous placeholder.
pub type Role = Option<Seq<char>>;

/// The mathematical value of a message label.
pub type Label = Seq<char>;

/// One party of a protocol: a named role, or the anonymous placeholder `?`.
#[derive(Debug, Ord)]
pub struct Participant {
    role: Option<String>,
}

impl View for Participant {
    type V = Role;

    closed spec fn view(&self) -> Role {
        match self.role {
            Some(s) => Some(s@),
            None => None,
        }
    }
}

/// The role that an optional name stands for.
pub open spec fn role_of(name: Option<String>) -> Role {
    match name {
        Some(s) => Some(s@),
        None => None,
    }
}

impl Participant {
    /// The participant with the given name, or the anonymous one.
    pub fn new(role: Option<String>) -> (p: Participant)
        ensures
            p@ == role_of(role),
    {
        Participant { role }
    }

    /// The placeholder for a participant that is not known yet.
    pub fn anonymous() -> (p: Participant)
        ensures
            p@ == None::<Seq<char>>,
    {
        Participant { role: None }
    }

    /// Whether this is the anonymous placeholder.
    pub fn is_anonymous(&self) -> (b: bool)
        ensures
            b == (self@ is None),
    {
        self.role.is_none()
    }

    /// The name of the role, if the participant has one.
    pub fn role(&self) -> (r: &Option<String>)
        ensures
            role_of(*r) == self@,
    {
        &self.role
    }

    /// Whether both participants are the same role.
    pub fn same_as(&self, other: &Participant) -> (b: bool)
        ensures
            b == (self@ == other@),
    {
        match (&self.role, &other.role) {
            (Some(a), Some(b)) => *a == *b,
            (None, None) => true,
            _ => false,
        }
    }
}

impl Clone for Participant {
    fn clone(&self) -> (res: Participant)
        ensures
            res@ == self@,
    {
        match &self.role {
            Some(s) => Participant { role: Some(s.clone()) },
            None => Participant { role: None },
        }
    }
}

impl PartialEq for Participant {
    fn eq(&self, other: &Participant) -> (b: bool) {
        self.same_as(other)
    }
}

impl Eq for Participant {

}

impl vstd::std_specs::cmp::PartialEqSpecImpl for Participant {
    open spec fn obeys_eq_spec() -> bool {
        true
    }

    open spec fn eq_spec(&self, other: &Participant) -> bool {
        self@ == other@
    }
}

/// The mathematical value of a local session type.
pub ghost enum LocalSpec {
    /// Internal choice: send one of the labels to the partner.
    Select(Role, Seq<(Label, LocalSpec)>),
    /// External choice: receive one of the labels from the partner.
    Branch(Role, Seq<(Label, LocalSpec)>),
    /// Recursion binder.
    RecX { cont: Box<LocalSpec>, id: int, min_depth: Option<int>, max_depth: Option<int> },
    /// Recursion variable: the id it refers to, and whether that id is
    /// already the id of a global recursion scope.
    X(Option<int>, bool),
    End,
}

/// The local session type of one participant.
#[derive(Debug)]
pub enum MPSTLocalType {
    Select(Participant, Vec<(String, MPSTLocalType)>),
    /// Branch is receive with external choice.
    Branch(Participant, Vec<(String, MPSTLocalType)>),
    RecX { cont: Box<MPSTLocalType>, id: i32, min_depth: Option<i32>, max_depth: Option<i32> },
    /// The flag says whether the variable has been assigned to a global
    /// recursion id. If it has, it is not mapped again.
    X(Option<i32>, bool),
    End,
}

/// A supply of ids for recursion binders: it counts the binders it has
/// numbered, and its view is the id it handed out last.
pub struct RecursiveCounter {
    last: i32,
}

impl View for RecursiveCounter {
    type V = int;

    closed spec fn view(&self) -> int {
        self.last as int
    }
}

impl RecursiveCounter {
    /// A supply that has handed out no id yet; its first id is 1.
    pub fn new() -> (c: RecursiveCounter)
        ensures
            c@ == 0,
    {
        RecursiveCounter { last: 0 }
    }

    /// Whether the supply can hand out one more id.
    pub fn has_next(&self) -> (b: bool)
        ensures
            b == (self@ < i32::MAX),
    {
        self.last < i32::MAX
    }

    /// The next id: one more than the id before it.
    pub fn next(&mut self) -> (id: i32)
        requires
            old(self)@ < i32::MAX,
        ensures
            id == old(self)@ + 1,
            final(self)@ == id,
    {
        self.last = self.last + 1;
        self.last
    }
}

/// The mathematical value of an optional machine integer.
pub open spec fn opt_int(o: Option<i32>) -> Option<int> {
    match o {
        Some(v) => Some(v as int),
        None => None,
    }
}

/// The mathematical value of a local type.
pub open spec fn local_view(t: MPSTLocalType) -> LocalSpec
    decreases t,
{
    match t {
        MPSTLocalType::Select(p, conts) => LocalSpec::Select(p@, conts_view(conts@)),
        MPSTLocalType::Branch(p, conts) => LocalSpec::Branch(p@, conts_view(conts@)),
        MPSTLocalType::RecX { cont, id, min_depth, max_depth } => LocalSpec::RecX {
            cont: Box::new(local_view(*cont)),
            id: id as int,
            min_depth: opt_int(min_depth),
            max_depth: opt_int(max_depth),
        },
        MPSTLocalType::X(id, mapped) => LocalSpec::X(opt_int(id), mapped),
        MPSTLocalType::End => LocalSpec::End,
    }
}

/// The mathematical value of a list of labelled continuations.
pub open spec fn conts_view(conts: Seq<(String, MPSTLocalType)>) -> Seq<(Label, LocalSpec)>
    decreases conts,
{
    Seq::new(
        conts.len(),
        |i: int|
            if 0 <= i < conts.len() {
                (conts[i].0@, local_view(conts[i].1))
            } else {
                (Seq::empty(), LocalSpec::End)
            },
    )
}

impl View for MPSTLocalType {
    type V = LocalSpec;

    open spec fn view(&self) -> LocalSpec {
        local_view(*self)
    }
}

/// Copies an optional integer.
fn copy_opt(o: &Option<i32>) -> (r: Option<i32>)
    ensures
        r == *o,
{
    match o {
        Some(v) => Some(*v),
        None => None,
    }
}

impl MPSTLocalType {
    /// Receive `label` from `p`, then go on with `cont`.
    pub fn receive(p: Participant, label: String, cont: MPSTLocalType) -> (t: MPSTLocalType)
        ensures
            t@ == LocalSpec::Branch(p@, seq![(label@, cont@)]),
    {
        let mut conts: Vec<(String, MPSTLocalType)> = Vec::new();
        conts.push((label, cont));
        assert(conts_view(conts@) =~= seq![(label@, cont@)]);
        MPSTLocalType::Branch(p, conts)
    }

    /// Send `label` to `p`, then go on with `cont`.
    pub fn send(p: Participant, label: String, cont: MPSTLocalType) -> (t: MPSTLocalType)
        ensures
            t@ == LocalSpec::Select(p@, seq![(label@, cont@)]),
    {
        let mut conts: Vec<(String, MPSTLocalType)> = Vec::new();
        conts.push((label, cont));
        assert(conts_view(conts@) =~= seq![(label@, cont@)]);
        MPSTLocalType::Select(p, conts)
    }

    /// A binder with the given id around `cont`.
    #[allow(non_snake_case)]
    pub fn recX_with_id(cont: Box<MPSTLocalType>, id: i32) -> (t: MPSTLocalType)
        ensures
            t@ == (LocalSpec::RecX { cont: Box::new(cont@), id: id as int, min_depth: None, max_depth: None }),
    {
        MPSTLocalType::RecX { cont, id, min_depth: None, max_depth: None }
    }

    /// A binder with an id that `ids` has not handed out before.
    #[allow(non_snake_case)]
    pub fn recX(cont: Box<MPSTLocalType>, ids: &mut RecursiveCounter) -> (t: MPSTLocalType)
        requires
            old(ids)@ < i32::MAX,
        ensures
            final(ids)@ == old(ids)@ + 1,
            t@ == (LocalSpec::RecX {
                cont: Box::new(cont@),
                id: old(ids)@ + 1,
                min_depth: None,
                max_depth: None,
            }),
    {
        let id = ids.next();
        MPSTLocalType::RecX { cont, id, min_depth: None, max_depth: None }
    }

    /// A recursion variable that goes back to the binder around it.
    pub fn x() -> (t: MPSTLocalType)
        ensures
            t@ == LocalSpec::X(None, false),
    {
        MPSTLocalType::X(None, false)
    }

    /// A recursion variable that goes back to the binder `id`.
    pub fn x_with_id(id: i32) -> (t: MPSTLocalType)
        ensures
            t@ == LocalSpec::X(Some(id as int), false),
    {
        MPSTLocalType::X(Some(id), false)
    }

    /// A copy of the list of continuations.
    fn clone_conts(conts: &Vec<(String, MPSTLocalType)>) -> (out: Vec<(String, MPSTLocalType)>)
        ensures
            conts_view(out@) == conts_view(conts@),
        decreases conts,
    {
        let mut out: Vec<(String, MPSTLocalType)> = Vec::new();
        let mut i: usize = 0;
        while i < conts.len()
            invariant
                i <= conts.len(),
                out.len() == i,
                forall|j: int| 0 <= j < i ==> out@[j].0@ == conts@[j].0@ && out@[j].1@ == conts@[j].1@,
            decreases conts.len() - i,
        {
            let c = conts[i].1.clone();
            out.push((conts[i].0.clone(), c));
            i += 1;
        }
        out
    }
}

impl Clone for MPSTLocalType {
    fn clone(&self) -> (res: MPSTLocalType)
        ensures
            res@ == self@,
        decreases self,
    {
        match self {
            MPSTLocalType::Select(p, conts) => MPSTLocalType::Select(p.clone(), MPSTLocalType::clone_conts(conts)),
            MPSTLocalType::Branch(p, conts) => MPSTLocalType::Branch(p.clone(), MPSTLocalType::clone_conts(conts)),
            MPSTLocalType::RecX { cont, id, min_depth, max_depth } => MPSTLocalType::RecX {
                cont: Box::new((**cont).clone()),
                id: *id,
                min_depth: copy_opt(min_depth),
                max_depth: copy_opt(max_depth),
            },
            MPSTLocalType::X(id, mapped) => MPSTLocalType::X(copy_opt(id), *mapped),
            MPSTLocalType::End => MPSTLocalType::End,
        }
    }
}

/// The local type `t` in which every recursion variable that still
/// refers to the local binder `local_id`, or to no binder at all, refers
/// to the global recursion scope `global_id` instead. Variables that were
/// mapped before stay as they are, and so does every binder.
pub open spec fn map_x(t: LocalSpec, local_id: int, global_id: int) -> LocalSpec
    decreases t,
{
    match t {
        LocalSpec::X(Some(id), false) => if id == local_id {
            LocalSpec::X(Some(global_id), true)
        } else {
            t
        },
        LocalSpec::X(None, false) => LocalSpec::X(Some(global_id), true),
        LocalSpec::X(_, _) => t,
        LocalSpec::Select(p, conts) => LocalSpec::Select(p, map_x_conts(conts, local_id, global_id)),
        LocalSpec::Branch(p, conts) => LocalSpec::Branch(p, map_x_conts(conts, local_id, global_id)),
        LocalSpec::RecX { cont, id, min_depth, max_depth } => LocalSpec::RecX {
            cont: Box::new(map_x(*cont, local_id, global_id)),
            id,
            min_depth,
            max_depth,
        },
        LocalSpec::End => LocalSpec::End,
    }
}

/// `map_x` on each continuation of a list; the labels stay.
pub open spec fn map_x_conts(conts: Seq<(Label, LocalSpec)>, local_id: int, global_id: int) -> Seq<
    (Label, LocalSpec),
>
    decreases conts,
{
    Seq::new(
        conts.len(),
        |i: int|
            if 0 <= i < conts.len() {
                (conts[i].0, map_x(conts[i].1, local_id, global_id))
            } else {
                conts[i]
            },
    )
}

/// The number of nodes of a local type.
pub open spec fn size(t: LocalSpec) -> nat
    decreases t,
{
    match t {
        LocalSpec::Select(_, conts) => 1 + conts_size(conts),
        LocalSpec::Branch(_, conts) => 1 + conts_size(conts),
        LocalSpec::RecX { cont, .. } => 1 + size(*cont),
        LocalSpec::X(_, _) => 1,
        LocalSpec::End => 1,
    }
}

/// The number of nodes of all continuations of a list together.
pub open spec fn conts_size(conts: Seq<(Label, LocalSpec)>) -> nat
    decreases conts,
{
    if conts.len() == 0 {
        0
    } else {
        conts_size(conts.drop_last()) + size(conts.last().1)
    }
}

/// Each continuation is smaller than the list that holds it.
pub proof fn lemma_cont_smaller(conts: Seq<(Label, LocalSpec)>, i: int)
    requires
        0 <= i < conts.len(),
    ensures
        size(conts[i].1) <= conts_size(conts),
    decreases conts.len(),
{
    if i < conts.len() - 1 {
        lemma_cont_smaller(conts.drop_last(), i);
    }
}

/// Rewriting the recursion variables keeps the number of nodes.
pub proof fn lemma_map_x_size(t: LocalSpec, local_id: int, global_id: int)
    ensures
        size(map_x(t, local_id, global_id)) == size(t),
    decreases t,
{
    match t {
        LocalSpec::Select(_, conts) => lemma_map_x_conts_size(conts, local_id, global_id),
        LocalSpec::Branch(_, conts) => lemma_map_x_conts_size(conts, local_id, global_id),
        LocalSpec::RecX { cont, .. } => lemma_map_x_size(*cont, local_id, global_id),
        _ => {},
    }
}

/// Rewriting the recursion variables of a list keeps the number of nodes.
pub proof fn lemma_map_x_conts_size(conts: Seq<(Label, LocalSpec)>, local_id: int, global_id: int)
    ensures
        conts_size(map_x_conts(conts, local_id, global_id)) == conts_size(conts),
    decreases conts, conts.len(),
{
    if conts.len() > 0 {
        let mapped = map_x_conts(conts, local_id, global_id);
        assert(mapped.drop_last() =~= map_x_conts(conts.drop_last(), local_id, global_id));
        lemma_map_x_conts_size(conts.drop_last(), local_id, global_id);
        lemma_map_x_size(conts.last().1, local_id, global_id);
    }
}

impl MPSTLocalType {
    /// Rewrites the recursion variables of each continuation.
    fn map_conts(conts: &Vec<(String, MPSTLocalType)>, local_id: i32, global_id: i32) -> (out: Vec<
        (String, MPSTLocalType),
    >)
        ensures
            conts_view(out@) == map_x_conts(conts_view(conts@), local_id as int, global_id as int),
        decreases conts,
    {
        let mut out: Vec<(String, MPSTLocalType)> = Vec::new();
        let mut i: usize = 0;
        while i < conts.len()
            invariant
                i <= conts.len(),
                out.len() == i,
                forall|j: int|
                    0 <= j < i ==> out@[j].0@ == conts@[j].0@ && out@[j].1@ == map_x(
                        conts@[j].1@,
                        local_id as int,
                        global_id as int,
                    ),
            decreases conts.len() - i,
        {
            let c = conts[i].1.map_local_x_to_global_rec(local_id, global_id);
            out.push((conts[i].0.clone(), c));
            i += 1;
        }
        out
    }

    /// The rewriter of recursion variables: see `map_x`.
    pub fn map_local_x_to_global_rec(&self, local_id: i32, global_id: i32) -> (res: MPSTLocalType)
        ensures
            res@ == map_x(self@, local_id as int, global_id as int),
        decreases self,
    {
        match self {
            MPSTLocalType::X(Some(id), false) => {
                if *id == local_id {
                    MPSTLocalType::X(Some(global_id), true)
                } else {
                    MPSTLocalType::X(Some(*id), false)
                }
            },
            MPSTLocalType::X(None, false) => MPSTLocalType::X(Some(global_id), true),
            MPSTLocalType::X(id, mapped) => MPSTLocalType::X(copy_opt(id), *mapped),
            MPSTLocalType::Select(p, choices) => MPSTLocalType::Select(
                p.clone(),
                MPSTLocalType::map_conts(choices, local_id, global_id),
            ),
            MPSTLocalType::Branch(p, choices) => MPSTLocalType::Branch(
                p.clone(),
                MPSTLocalType::map_conts(choices, local_id, global_id),
            ),
            MPSTLocalType::RecX { cont, id, min_depth, max_depth } => MPSTLocalType::RecX {
                cont: Box::new(cont.map_local_x_to_global_rec(local_id, global_id)),
                id: *id,
                min_depth: copy_opt(min_depth),
                max_depth: copy_opt(max_depth),
            },
            MPSTLocalType::End => MPSTLocalType::End,
        }
    }

    /// Whether both lists hold the same labels with the same continuations.
    fn same_conts(a: &Vec<(String, MPSTLocalType)>, b: &Vec<(String, MPSTLocalType)>) -> (r: bool)
        ensures
            r == (conts_view(a@) == conts_view(b@)),
        decreases a,
    {
        if a.len() != b.len() {
            return false;
        }
        let mut i: usize = 0;
        while i < a.len()
            invariant
                i <= a.len(),
                a.len() == b.len(),
                forall|j: int| 0 <= j < i ==> conts_view(a@)[j] == conts_view(b@)[j],
            decreases a.len() - i,
        {
            if !(a[i].0 == b[i].0) || !a[i].1.same(&b[i].1) {
                assert(conts_view(a@)[i as int] != conts_view(b@)[i as int]);
                return false;
            }
            i += 1;
        }
        assert(conts_view(a@) =~= conts_view(b@));
        true
    }

    /// Structural equality.
    pub fn same(&self, other: &MPSTLocalType) -> (r: bool)
        ensures
            r == (self@ == other@),
        decreases self,
    {
        match (self, other) {
            (MPSTLocalType::Select(p, a), MPSTLocalType::Select(q, b)) => p.same_as(q)
                && MPSTLocalType::same_conts(a, b),
            (MPSTLocalType::Branch(p, a), MPSTLocalType::Branch(q, b)) => p.same_as(q)
                && MPSTLocalType::same_conts(a, b),
            (
                MPSTLocalType::RecX { cont: c1, id: i1, min_depth: lo1, max_depth: hi1 },
                MPSTLocalType::RecX { cont: c2, id: i2, min_depth: lo2, max_depth: hi2 },
            ) => *i1 == *i2 && *lo1 == *lo2 && *hi1 == *hi2 && c1.same(c2),
            (MPSTLocalType::X(i1, m1), MPSTLocalType::X(i2, m2)) => *i1 == *i2 && *m1 == *m2,
            (MPSTLocalType::End, MPSTLocalType::End) => true,
            _ => false,
        }
    }
}

impl PartialEq for MPSTLocalType {
    fn eq(&self, other: &MPSTLocalType) -> (b: bool) {
        self.same(other)
    }
}

impl Eq for MPSTLocalType {

}

impl vstd::std_specs::cmp::PartialEqSpecImpl for MPSTLocalType {
    open spec fn obeys_eq_spec() -> bool {
        true
    }

    open spec fn eq_spec(&self, other: &MPSTLocalType) -> bool {
        self@ == other@
    }
}

/// No label occurs twice in the list.
pub open spec fn labels_unique(conts: Seq<(Label, LocalSpec)>) -> bool {
    forall|i: int, j: int| 0 <= i < j < conts.len() ==> conts[i].0 != conts[j].0
}

/// Every choice of the type, at any depth, offers at least one label and
/// no label twice, and every recursion variable of the type is bound: one
/// with an id stands below a binder with that id, either in the type or
/// among the binders `scope` around it, one without an id below any
/// binder. A variable that is mapped to a global scope already is bound
/// by no binder.
pub open spec fn sound_in(t: LocalSpec, scope: Seq<int>) -> bool
    decreases t,
{
    match t {
        LocalSpec::X(id, mapped) => !mapped && match id {
            Some(id) => scope.contains(id),
            None => scope.len() > 0,
        },
        LocalSpec::Select(_, conts) => conts.len() > 0 && labels_unique(conts) && forall|i: int|
            0 <= i < conts.len() ==> sound_in(#[trigger] conts[i].1, scope),
        LocalSpec::Branch(_, conts) => conts.len() > 0 && labels_unique(conts) && forall|i: int|
            0 <= i < conts.len() ==> sound_in(#[trigger] conts[i].1, scope),
        LocalSpec::RecX { cont, id, .. } => sound_in(*cont, scope.push(id)),
        LocalSpec::End => true,
    }
}

/// The ids of all binders of the type, outer ones first.
pub open spec fn rec_ids(t: LocalSpec) -> Seq<int>
    decreases t,
{
    match t {
        LocalSpec::Select(_, conts) => conts_rec_ids(conts),
        LocalSpec::Branch(_, conts) => conts_rec_ids(conts),
        LocalSpec::RecX { cont, id, .. } => seq![id] + rec_ids(*cont),
        _ => Seq::empty(),
    }
}

/// The ids of all binders in the continuations of a list.
pub open spec fn conts_rec_ids(conts: Seq<(Label, LocalSpec)>) -> Seq<int>
    decreases conts,
{
    if conts.len() == 0 {
        Seq::empty()
    } else {
        conts_rec_ids(conts.drop_last()) + rec_ids(conts.last().1)
    }
}

/// What is asked of a local type that is handed to the merge: choices
/// that are not empty and offer no label twice, recursion variables that
/// are bound by a binder of the type, and binders with ids of their own.
pub open spec fn well_formed(t: LocalSpec) -> bool {
    &&& sound_in(t, Seq::empty())
    &&& rec_ids(t).no_duplicates()
}

/// The mathematical values of a list of machine integers.
pub open spec fn ints(v: Seq<i32>) -> Seq<int> {
    Seq::new(v.len(), |i: int| v[i] as int)
}

/// Whether the list holds `x`.
fn holds(v: &Vec<i32>, x: i32) -> (r: bool)
    ensures
        r == ints(v@).contains(x as int),
{
    let mut i: usize = 0;
    while i < v.len()
        invariant
            i <= v.len(),
            forall|j: int| 0 <= j < i ==> ints(v@)[j] != x as int,
        decreases v.len() - i,
    {
        if v[i] == x {
            assert(ints(v@)[i as int] == x as int);
            return true;
        }
        i += 1;
    }
    false
}

/// A copy of the list with `x` added at its end.
fn with_pushed(v: &Vec<i32>, x: i32) -> (out: Vec<i32>)
    ensures
        ints(out@) == ints(v@).push(x as int),
{
    let mut out: Vec<i32> = Vec::new();
    let mut i: usize = 0;
    while i < v.len()
        invariant
            i <= v.len(),
            out@ == v@.take(i as int),
        decreases v.len() - i,
    {
        out.push(v[i]);
        i += 1;
    }
    out.push(x);
    out
}

/// Whether no value occurs twice in the list.
fn all_distinct(v: &Vec<i32>) -> (r: bool)
    ensures
        r == ints(v@).no_duplicates(),
{
    let mut i: usize = 0;
    while i < v.len()
        invariant
            i <= v.len(),
            forall|a: int, b: int| 0 <= a < i && 0 <= b < v.len() && a != b ==> ints(v@)[a] != ints(v@)[b],
        decreases v.len() - i,
    {
        let mut j: usize = 0;
        while j < v.len()
            invariant
                i < v.len(),
                j <= v.len(),
                forall|b: int| 0 <= b < j && b != i ==> ints(v@)[i as int] != ints(v@)[b],
            decreases v.len() - j,
        {
            if j != i && v[i] == v[j] {
                assert(ints(v@)[i as int] == ints(v@)[j as int]);
                return false;
            }
            j += 1;
        }
        i += 1;
    }
    true
}

impl MPSTLocalType {
    /// Whether the list is not empty and offers no label twice.
    fn labels_ok(conts: &Vec<(String, MPSTLocalType)>) -> (r: bool)
        ensures
            r == (conts.len() > 0 && labels_unique(conts_view(conts@))),
    {
        if conts.len() == 0 {
            return false;
        }
        let mut j: usize = 0;
        while j < conts.len()
            invariant
                j <= conts.len(),
                forall|a: int, b: int|
                    0 <= a < b < j ==> conts_view(conts@)[a].0 != conts_view(conts@)[b].0,
            decreases conts.len() - j,
        {
            let mut i: usize = 0;
            while i < j
                invariant
                    i <= j < conts.len(),
                    forall|a: int| 0 <= a < i ==> conts_view(conts@)[a].0 != conts_view(conts@)[j as int].0,
                decreases j - i,
            {
                if conts[i].0 == conts[j].0 {
                    assert(conts_view(conts@)[i as int].0 == conts_view(conts@)[j as int].0);
                    return false;
                }
                i += 1;
            }
            j += 1;
        }
        true
    }

    /// Whether every continuation of the list is sound below `scope`.
    fn conts_sound_in(conts: &Vec<(String, MPSTLocalType)>, scope: &Vec<i32>) -> (r: bool)
        ensures
            r == (forall|i: int|
                0 <= i < conts.len() ==> sound_in(#[trigger] conts_view(conts@)[i].1, ints(scope@))),
        decreases conts,
    {
        let mut i: usize = 0;
        while i < conts.len()
            invariant
                i <= conts.len(),
                forall|j: int| 0 <= j < i ==> sound_in(#[trigger] conts_view(conts@)[j].1, ints(scope@)),
            decreases conts.len() - i,
        {
            if !conts[i].1.is_sound_in(scope) {
                assert(!sound_in(conts_view(conts@)[i as int].1, ints(scope@)));
                return false;
            }
            i += 1;
        }
        true
    }

    /// Whether the choices of the type are in order and its recursion
    /// variables bound, below the binders `scope`: see `sound_in`.
    pub fn is_sound_in(&self, scope: &Vec<i32>) -> (r: bool)
        ensures
            r == sound_in(self@, ints(scope@)),
        decreases self,
    {
        match self {
            MPSTLocalType::X(Some(id), false) => holds(scope, *id),
            MPSTLocalType::X(None, false) => {
                scope.len() > 0
            },
            MPSTLocalType::X(_, _) => false,
            MPSTLocalType::Select(_, conts) => {
                assert(self@ == LocalSpec::Select(self@->Select_0, conts_view(conts@)));
                MPSTLocalType::labels_ok(conts) && MPSTLocalType::conts_sound_in(conts, scope)
            },
            MPSTLocalType::Branch(_, conts) => {
                assert(self@ == LocalSpec::Branch(self@->Branch_0, conts_view(conts@)));
                MPSTLocalType::labels_ok(conts) && MPSTLocalType::conts_sound_in(conts, scope)
            },
            MPSTLocalType::RecX { cont, id, .. } => {
                let inner = with_pushed(scope, *id);
                cont.is_sound_in(&inner)
            },
            MPSTLocalType::End => true,
        }
    }

    /// Adds the ids of the binders in the continuations to `out`.
    fn collect_conts_rec_ids(conts: &Vec<(String, MPSTLocalType)>, out: &mut Vec<i32>)
        ensures
            ints(final(out)@) == ints(old(out)@) + conts_rec_ids(conts_view(conts@)),
        decreases conts,
    {
        let mut i: usize = 0;
        while i < conts.len()
            invariant
                i <= conts.len(),
                ints(out@) == ints(old(out)@) + conts_rec_ids(conts_view(conts@).take(i as int)),
            decreases conts.len() - i,
        {
            conts[i].1.collect_rec_ids(out);
            proof {
                let cv = conts_view(conts@);
                assert(cv.take(i + 1).drop_last() =~= cv.take(i as int));
            }
            i += 1;
        }
        assert(conts_view(conts@).take(conts.len() as int) =~= conts_view(conts@));
    }

    /// Adds the ids of all binders of the type to `out`, outer ones first.
    pub fn collect_rec_ids(&self, out: &mut Vec<i32>)
        ensures
            ints(final(out)@) == ints(old(out)@) + rec_ids(self@),
        decreases self,
    {
        match self {
            MPSTLocalType::Select(_, conts) => MPSTLocalType::collect_conts_rec_ids(conts, out),
            MPSTLocalType::Branch(_, conts) => MPSTLocalType::collect_conts_rec_ids(conts, out),
            MPSTLocalType::RecX { cont, id, .. } => {
                out.push(*id);
                cont.collect_rec_ids(out);
            },
            _ => {},
        }
    }

    /// Whether the type may be handed to the merge: see `well_formed`.
    pub fn is_well_formed(&self) -> (r: bool)
        ensures
            r == well_formed(self@),
    {
        let scope: Vec<i32> = Vec::new();
        let mut ids: Vec<i32> = Vec::new();
        assert(ints(scope@) =~= Seq::<int>::empty());
        self.collect_rec_ids(&mut ids);
        self.is_sound_in(&scope) && all_distinct(&ids)
    }
}

} // verus!
