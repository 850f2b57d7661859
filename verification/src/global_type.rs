//! The global type: the protocol of all participants together.

use crate::session_type::{Label, Participant, Role};
use vstd::prelude::*;

verus! {

/// The mathematical value of a global type.
pub ghost enum GlobalSpec {
    /// One message from the first participant to the second.
    Send(Role, Role, Label, Box<GlobalSpec>),
    /// The first participant chooses a label, the second receives it.
    Select(Role, Role, Seq<(Label, GlobalSpec)>),
    /// Global recursion binder.
    RecX(int, Box<GlobalSpec>),
    /// Global recursion variable.
    X(int),
    End,
}

/// The protocol that the merge reconstructs.
#[derive(Debug)]
pub enum GlobalType {
    Send(Participant, Participant, String, Box<GlobalType>),
    Select(Participant, Participant, Vec<(String, GlobalType)>),
    RecX(i32, Box<GlobalType>),
    X(i32),
    End,
}

/// The mathematical value of a global type.
pub open spec fn global_view(t: GlobalType) -> GlobalSpec
    decreases t,
{
    match t {
        GlobalType::Send(from, to, label, cont) => GlobalSpec::Send(
            from@,
            to@,
            label@,
            Box::new(global_view(*cont)),
        ),
        GlobalType::Select(from, to, conts) => GlobalSpec::Select(from@, to@, global_conts_view(conts@)),
        GlobalType::RecX(id, cont) => GlobalSpec::RecX(id as int, Box::new(global_view(*cont))),
        GlobalType::X(id) => GlobalSpec::X(id as int),
        GlobalType::End => GlobalSpec::End,
    }
}

/// The mathematical value of a list of labelled global continuations.
pub open spec fn global_conts_view(conts: Seq<(String, GlobalType)>) -> Seq<(Label, GlobalSpec)>
    decreases conts,
{
    Seq::new(
        conts.len(),
        |i: int|
            if 0 <= i < conts.len() {
                (conts[i].0@, global_view(conts[i].1))
            } else {
                (Seq::empty(), GlobalSpec::End)
            },
    )
}

impl View for GlobalType {
    type V = GlobalSpec;

    open spec fn view(&self) -> GlobalSpec {
        global_view(*self)
    }
}

/// The global type in which each choice of one label is written as a
/// single message.
pub open spec fn simplified(t: GlobalSpec) -> GlobalSpec
    decreases t,
{
    match t {
        GlobalSpec::Send(from, to, label, cont) => GlobalSpec::Send(from, to, label, Box::new(simplified(*cont))),
        GlobalSpec::Select(from, to, conts) => if conts.len() == 1 {
            GlobalSpec::Send(from, to, conts[0].0, Box::new(simplified(conts[0].1)))
        } else {
            GlobalSpec::Select(from, to, simplified_conts(conts))
        },
        GlobalSpec::RecX(id, cont) => GlobalSpec::RecX(id, Box::new(simplified(*cont))),
        GlobalSpec::X(id) => GlobalSpec::X(id),
        GlobalSpec::End => GlobalSpec::End,
    }
}

/// `simplified` on each continuation of a list; the labels stay.
pub open spec fn simplified_conts(conts: Seq<(Label, GlobalSpec)>) -> Seq<(Label, GlobalSpec)>
    decreases conts,
{
    Seq::new(
        conts.len(),
        |i: int|
            if 0 <= i < conts.len() {
                (conts[i].0, simplified(conts[i].1))
            } else {
                conts[i]
            },
    )
}

impl GlobalType {
    /// A copy of the list of continuations.
    fn clone_conts(conts: &Vec<(String, GlobalType)>) -> (out: Vec<(String, GlobalType)>)
        ensures
            global_conts_view(out@) == global_conts_view(conts@),
        decreases conts,
    {
        let mut out: Vec<(String, GlobalType)> = Vec::new();
        let mut i: usize = 0;
        while i < conts.len()
            invariant
                i <= conts.len(),
                out.len() == i,
                forall|j: int| 0 <= j < i ==> out@[j].0@ == conts@[j].0@ && out@[j].1@ == conts@[j].1@,
            decreases conts.len() - i,
        {
            let c = conts[i].1.clone();
            out.push((conts[i].0.clone(), c));
            i += 1;
        }
        out
    }

    /// Whether both lists hold the same labels with the same continuations.
    fn same_conts(a: &Vec<(String, GlobalType)>, b: &Vec<(String, GlobalType)>) -> (r: bool)
        ensures
            r == (global_conts_view(a@) == global_conts_view(b@)),
        decreases a,
    {
        if a.len() != b.len() {
            assert(global_conts_view(a@).len() != global_conts_view(b@).len());
            return false;
        }
        let mut i: usize = 0;
        while i < a.len()
            invariant
                i <= a.len(),
                a.len() == b.len(),
                forall|j: int| 0 <= j < i ==> global_conts_view(a@)[j] == global_conts_view(b@)[j],
            decreases a.len() - i,
        {
            if !(a[i].0 == b[i].0) || !a[i].1.same(&b[i].1) {
                assert(global_conts_view(a@)[i as int] != global_conts_view(b@)[i as int]);
                return false;
            }
            i += 1;
        }
        assert(global_conts_view(a@) =~= global_conts_view(b@));
        true
    }

    /// Structural equality.
    pub fn same(&self, other: &GlobalType) -> (r: bool)
        ensures
            r == (self@ == other@),
        decreases self,
    {
        match (self, other) {
            (GlobalType::Send(f1, t1, l1, c1), GlobalType::Send(f2, t2, l2, c2)) => f1.same_as(f2)
                && t1.same_as(t2) && *l1 == *l2 && c1.same(c2),
            (GlobalType::Select(f1, t1, a), GlobalType::Select(f2, t2, b)) => f1.same_as(f2)
                && t1.same_as(t2) && GlobalType::same_conts(a, b),
            (GlobalType::RecX(i1, c1), GlobalType::RecX(i2, c2)) => *i1 == *i2 && c1.same(c2),
            (GlobalType::X(i1), GlobalType::X(i2)) => *i1 == *i2,
            (GlobalType::End, GlobalType::End) => true,
            _ => false,
        }
    }

    /// `simplify` on each continuation of a list.
    fn simplify_conts(conts: &Vec<(String, GlobalType)>) -> (out: Vec<(String, GlobalType)>)
        ensures
            global_conts_view(out@) == simplified_conts(global_conts_view(conts@)),
        decreases conts,
    {
        let mut out: Vec<(String, GlobalType)> = Vec::new();
        let mut i: usize = 0;
        while i < conts.len()
            invariant
                i <= conts.len(),
                out.len() == i,
                forall|j: int|
                    0 <= j < i ==> out@[j].0@ == conts@[j].0@ && out@[j].1@ == simplified(conts@[j].1@),
            decreases conts.len() - i,
        {
            let c = conts[i].1.simplify();
            out.push((conts[i].0.clone(), c));
            i += 1;
        }
        out
    }

    /// The same protocol with each choice of one label written as a
    /// single message.
    pub fn simplify(&self) -> (res: GlobalType)
        ensures
            res@ == simplified(self@),
        decreases self,
    {
        match self {
            GlobalType::Send(from, to, label, cont) => GlobalType::Send(
                from.clone(),
                to.clone(),
                label.clone(),
                Box::new(cont.simplify()),
            ),
            GlobalType::Select(from, to, conts) => {
                if conts.len() == 1 {
                    assert(global_conts_view(conts@)[0] == (conts@[0].0@, conts@[0].1@));
                    GlobalType::Send(
                        from.clone(),
                        to.clone(),
                        conts[0].0.clone(),
                        Box::new(conts[0].1.simplify()),
                    )
                } else {
                    GlobalType::Select(from.clone(), to.clone(), GlobalType::simplify_conts(conts))
                }
            },
            GlobalType::RecX(id, cont) => GlobalType::RecX(*id, Box::new(cont.simplify())),
            GlobalType::X(id) => GlobalType::X(*id),
            GlobalType::End => GlobalType::End,
        }
    }
}

impl Clone for GlobalType {
    fn clone(&self) -> (res: GlobalType)
        ensures
            res@ == self@,
        decreases self,
    {
        match self {
            GlobalType::Send(from, to, label, cont) => GlobalType::Send(
                from.clone(),
                to.clone(),
                label.clone(),
                Box::new((**cont).clone()),
            ),
            GlobalType::Select(from, to, conts) => GlobalType::Select(
                from.clone(),
                to.clone(),
                GlobalType::clone_conts(conts),
            ),
            GlobalType::RecX(id, cont) => GlobalType::RecX(*id, Box::new((**cont).clone())),
            GlobalType::X(id) => GlobalType::X(*id),
            GlobalType::End => GlobalType::End,
        }
    }
}

impl PartialEq for GlobalType {
    fn eq(&self, other: &GlobalType) -> (b: bool) {
        self.same(other)
    }
}

impl Eq for GlobalType {

}

impl vstd::std_specs::cmp::PartialEqSpecImpl for GlobalType {
    open spec fn obeys_eq_spec() -> bool {
        true
    }

    open spec fn eq_spec(&self, other: &GlobalType) -> bool {
        self@ == other@
    }
}

} // verus!
