//! The local type of one participant as it is read off a program: sends
//! and receives in sequence, choices and loops, and no partner yet.

use crate::session_type::{conts_view, Label, LocalSpec, MPSTLocalType, Participant};
use vstd::prelude::*;
use vstd::string::StringExecFns;

verus! {

/// The mathematical value of a local type that is read off a program. A
/// finished local type holds no `Break`.
pub ghost enum PartialSpec {
    Send(Label, Box<PartialSpec>),
    Receive(Label, Box<PartialSpec>),
    InternalChoice(Seq<PartialSpec>),
    ExternalChoice(Seq<PartialSpec>),
    RecX(int, Box<PartialSpec>),
    X(int),
    /// The way out of the loop around it.
    Break,
    End,
}

/// A local type that is read off a whole program.
#[derive(Debug)]
pub enum LocalType {
    Send(String, Box<LocalType>),
    Receive(String, Box<LocalType>),
    InternalChoice(Vec<LocalType>),
    ExternalChoice(Vec<LocalType>),
    RecX(i32, Box<LocalType>),
    X(i32),
    End,
}

/// A local type that is read off a part of a program, which may leave the
/// loop around it.
#[derive(Debug)]
pub enum PartialLocalType {
    Send(String, Box<PartialLocalType>),
    Receive(String, Box<PartialLocalType>),
    InternalChoice(Vec<PartialLocalType>),
    ExternalChoice(Vec<PartialLocalType>),
    RecX(i32, Box<PartialLocalType>),
    X(i32),
    Break,
    End,
}

/// The mathematical value of a finished local type.
pub open spec fn local_type_view(t: LocalType) -> PartialSpec
    decreases t,
{
    match t {
        LocalType::Send(label, cont) => PartialSpec::Send(label@, Box::new(local_type_view(*cont))),
        LocalType::Receive(label, cont) => PartialSpec::Receive(label@, Box::new(local_type_view(*cont))),
        LocalType::InternalChoice(choices) => PartialSpec::InternalChoice(local_types_view(choices@)),
        LocalType::ExternalChoice(choices) => PartialSpec::ExternalChoice(local_types_view(choices@)),
        LocalType::RecX(id, cont) => PartialSpec::RecX(id as int, Box::new(local_type_view(*cont))),
        LocalType::X(id) => PartialSpec::X(id as int),
        LocalType::End => PartialSpec::End,
    }
}

/// The mathematical values of a list of finished local types.
pub open spec fn local_types_view(choices: Seq<LocalType>) -> Seq<PartialSpec>
    decreases choices,
{
    Seq::new(
        choices.len(),
        |i: int|
            if 0 <= i < choices.len() {
                local_type_view(choices[i])
            } else {
                PartialSpec::End
            },
    )
}

/// The mathematical value of a local type in the making.
pub open spec fn partial_view(t: PartialLocalType) -> PartialSpec
    decreases t,
{
    match t {
        PartialLocalType::Send(label, cont) => PartialSpec::Send(label@, Box::new(partial_view(*cont))),
        PartialLocalType::Receive(label, cont) => PartialSpec::Receive(label@, Box::new(partial_view(*cont))),
        PartialLocalType::InternalChoice(choices) => PartialSpec::InternalChoice(partials_view(choices@)),
        PartialLocalType::ExternalChoice(choices) => PartialSpec::ExternalChoice(partials_view(choices@)),
        PartialLocalType::RecX(id, cont) => PartialSpec::RecX(id as int, Box::new(partial_view(*cont))),
        PartialLocalType::X(id) => PartialSpec::X(id as int),
        PartialLocalType::Break => PartialSpec::Break,
        PartialLocalType::End => PartialSpec::End,
    }
}

/// The mathematical values of a list of local types in the making.
pub open spec fn partials_view(choices: Seq<PartialLocalType>) -> Seq<PartialSpec>
    decreases choices,
{
    Seq::new(
        choices.len(),
        |i: int|
            if 0 <= i < choices.len() {
                partial_view(choices[i])
            } else {
                PartialSpec::End
            },
    )
}

impl View for LocalType {
    type V = PartialSpec;

    open spec fn view(&self) -> PartialSpec {
        local_type_view(*self)
    }
}

impl View for PartialLocalType {
    type V = PartialSpec;

    open spec fn view(&self) -> PartialSpec {
        partial_view(*self)
    }
}

/// The type holds a `Break`.
pub open spec fn has_break(t: PartialSpec) -> bool
    decreases t,
{
    match t {
        PartialSpec::Send(_, cont) => has_break(*cont),
        PartialSpec::Receive(_, cont) => has_break(*cont),
        PartialSpec::InternalChoice(choices) => choices.len() > 0 && exists|i: int|
            0 <= i < choices.len() && has_break(#[trigger] choices[i]),
        PartialSpec::ExternalChoice(choices) => choices.len() > 0 && exists|i: int|
            0 <= i < choices.len() && has_break(#[trigger] choices[i]),
        PartialSpec::RecX(_, cont) => has_break(*cont),
        PartialSpec::Break => true,
        _ => false,
    }
}

/// The type with `new_break` in place of every `Break`.
pub open spec fn break_replaced(t: PartialSpec, new_break: PartialSpec) -> PartialSpec
    decreases t,
{
    match t {
        PartialSpec::Break => new_break,
        PartialSpec::Send(label, cont) => PartialSpec::Send(label, Box::new(break_replaced(*cont, new_break))),
        PartialSpec::Receive(label, cont) => PartialSpec::Receive(
            label,
            Box::new(break_replaced(*cont, new_break)),
        ),
        PartialSpec::RecX(id, cont) => PartialSpec::RecX(id, Box::new(break_replaced(*cont, new_break))),
        PartialSpec::InternalChoice(choices) => PartialSpec::InternalChoice(
            all_break_replaced(choices, new_break),
        ),
        PartialSpec::ExternalChoice(choices) => PartialSpec::ExternalChoice(
            all_break_replaced(choices, new_break),
        ),
        PartialSpec::X(id) => PartialSpec::X(id),
        PartialSpec::End => PartialSpec::End,
    }
}

/// `break_replaced` on each type of a list.
pub open spec fn all_break_replaced(choices: Seq<PartialSpec>, new_break: PartialSpec) -> Seq<
    PartialSpec,
>
    decreases choices,
{
    Seq::new(
        choices.len(),
        |i: int|
            if 0 <= i < choices.len() {
                break_replaced(choices[i], new_break)
            } else {
                PartialSpec::End
            },
    )
}

/// The type with `new_end` in place of every `End`: what the type does,
/// and then what `new_end` does.
pub open spec fn end_replaced(t: PartialSpec, new_end: PartialSpec) -> PartialSpec
    decreases t,
{
    match t {
        PartialSpec::Break => PartialSpec::Break,
        PartialSpec::Send(label, cont) => PartialSpec::Send(label, Box::new(end_replaced(*cont, new_end))),
        PartialSpec::Receive(label, cont) => PartialSpec::Receive(
            label,
            Box::new(end_replaced(*cont, new_end)),
        ),
        PartialSpec::RecX(id, cont) => PartialSpec::RecX(id, Box::new(end_replaced(*cont, new_end))),
        PartialSpec::InternalChoice(choices) => PartialSpec::InternalChoice(
            all_end_replaced(choices, new_end),
        ),
        PartialSpec::ExternalChoice(choices) => PartialSpec::ExternalChoice(
            all_end_replaced(choices, new_end),
        ),
        PartialSpec::X(id) => PartialSpec::X(id),
        PartialSpec::End => new_end,
    }
}

/// `end_replaced` on each type of a list.
pub open spec fn all_end_replaced(choices: Seq<PartialSpec>, new_end: PartialSpec) -> Seq<PartialSpec>
    decreases choices,
{
    Seq::new(
        choices.len(),
        |i: int|
            if 0 <= i < choices.len() {
                end_replaced(choices[i], new_end)
            } else {
                PartialSpec::End
            },
    )
}

impl PartialLocalType {
    /// A copy of the list.
    fn clone_all(choices: &Vec<PartialLocalType>) -> (out: Vec<PartialLocalType>)
        ensures
            partials_view(out@) == partials_view(choices@),
        decreases choices,
    {
        let mut out: Vec<PartialLocalType> = Vec::new();
        let mut i: usize = 0;
        while i < choices.len()
            invariant
                i <= choices.len(),
                out.len() == i,
                forall|j: int| 0 <= j < i ==> (#[trigger] out@[j])@ == choices@[j]@,
            decreases choices.len() - i,
        {
            out.push(choices[i].clone());
            i += 1;
        }
        out
    }

    /// `map_break_to` on each type of the list.
    fn map_break_all(choices: &Vec<PartialLocalType>, new_break: &PartialLocalType) -> (out: Vec<
        PartialLocalType,
    >)
        ensures
            partials_view(out@) == all_break_replaced(partials_view(choices@), new_break@),
        decreases choices,
    {
        let mut out: Vec<PartialLocalType> = Vec::new();
        let mut i: usize = 0;
        while i < choices.len()
            invariant
                i <= choices.len(),
                out.len() == i,
                forall|j: int|
                    0 <= j < i ==> (#[trigger] out@[j])@ == break_replaced(choices@[j]@, new_break@),
            decreases choices.len() - i,
        {
            out.push(choices[i].map_break_to(new_break.clone()));
            i += 1;
        }
        out
    }

    /// The type with `new_break` in place of every `Break`.
    pub fn map_break_to(&self, new_break: PartialLocalType) -> (res: PartialLocalType)
        ensures
            res@ == break_replaced(self@, new_break@),
        decreases self,
    {
        match self {
            PartialLocalType::Break => new_break,
            PartialLocalType::Send(label, cont) => PartialLocalType::Send(
                label.clone(),
                Box::new(cont.map_break_to(new_break)),
            ),
            PartialLocalType::Receive(label, cont) => PartialLocalType::Receive(
                label.clone(),
                Box::new(cont.map_break_to(new_break)),
            ),
            PartialLocalType::RecX(id, cont) => PartialLocalType::RecX(
                *id,
                Box::new(cont.map_break_to(new_break)),
            ),
            PartialLocalType::InternalChoice(choices) => PartialLocalType::InternalChoice(
                PartialLocalType::map_break_all(choices, &new_break),
            ),
            PartialLocalType::ExternalChoice(choices) => PartialLocalType::ExternalChoice(
                PartialLocalType::map_break_all(choices, &new_break),
            ),
            PartialLocalType::X(id) => PartialLocalType::X(*id),
            PartialLocalType::End => PartialLocalType::End,
        }
    }

    /// `map_end_to` on each type of the list.
    fn map_end_all(choices: &Vec<PartialLocalType>, new_end: &PartialLocalType) -> (out: Vec<
        PartialLocalType,
    >)
        ensures
            partials_view(out@) == all_end_replaced(partials_view(choices@), new_end@),
        decreases choices,
    {
        let mut out: Vec<PartialLocalType> = Vec::new();
        let mut i: usize = 0;
        while i < choices.len()
            invariant
                i <= choices.len(),
                out.len() == i,
                forall|j: int| 0 <= j < i ==> (#[trigger] out@[j])@ == end_replaced(choices@[j]@, new_end@),
            decreases choices.len() - i,
        {
            out.push(choices[i].map_end_to(new_end.clone()));
            i += 1;
        }
        out
    }

    /// The type with `new_end` in place of every `End`.
    pub fn map_end_to(&self, new_end: PartialLocalType) -> (res: PartialLocalType)
        ensures
            res@ == end_replaced(self@, new_end@),
        decreases self,
    {
        match self {
            PartialLocalType::Break => PartialLocalType::Break,
            PartialLocalType::Send(label, cont) => PartialLocalType::Send(
                label.clone(),
                Box::new(cont.map_end_to(new_end)),
            ),
            PartialLocalType::Receive(label, cont) => PartialLocalType::Receive(
                label.clone(),
                Box::new(cont.map_end_to(new_end)),
            ),
            PartialLocalType::RecX(id, cont) => PartialLocalType::RecX(
                *id,
                Box::new(cont.map_end_to(new_end)),
            ),
            PartialLocalType::InternalChoice(choices) => PartialLocalType::InternalChoice(
                PartialLocalType::map_end_all(choices, &new_end),
            ),
            PartialLocalType::ExternalChoice(choices) => PartialLocalType::ExternalChoice(
                PartialLocalType::map_end_all(choices, &new_end),
            ),
            PartialLocalType::X(id) => PartialLocalType::X(*id),
            PartialLocalType::End => new_end,
        }
    }

    /// The types of the list as local types in the making.
    fn of_local_types(choices: &Vec<LocalType>) -> (out: Vec<PartialLocalType>)
        ensures
            partials_view(out@) == local_types_view(choices@),
        decreases choices,
    {
        let mut out: Vec<PartialLocalType> = Vec::new();
        let mut i: usize = 0;
        while i < choices.len()
            invariant
                i <= choices.len(),
                out.len() == i,
                forall|j: int| 0 <= j < i ==> (#[trigger] out@[j])@ == choices@[j]@,
            decreases choices.len() - i,
        {
            out.push(PartialLocalType::of_borrowed(&choices[i]));
            i += 1;
        }
        out
    }

    /// The finished local type as a local type in the making.
    fn of_borrowed(ty: &LocalType) -> (res: PartialLocalType)
        ensures
            res@ == ty@,
        decreases ty,
    {
        match ty {
            LocalType::Send(label, cont) => PartialLocalType::Send(
                label.clone(),
                Box::new(PartialLocalType::of_borrowed(cont)),
            ),
            LocalType::Receive(label, cont) => PartialLocalType::Receive(
                label.clone(),
                Box::new(PartialLocalType::of_borrowed(cont)),
            ),
            LocalType::RecX(id, cont) => PartialLocalType::RecX(
                *id,
                Box::new(PartialLocalType::of_borrowed(cont)),
            ),
            LocalType::InternalChoice(choices) => PartialLocalType::InternalChoice(
                PartialLocalType::of_local_types(choices),
            ),
            LocalType::ExternalChoice(choices) => PartialLocalType::ExternalChoice(
                PartialLocalType::of_local_types(choices),
            ),
            LocalType::X(id) => PartialLocalType::X(*id),
            LocalType::End => PartialLocalType::End,
        }
    }

    /// The finished local type as a local type in the making.
    pub fn of_local_type(ty: LocalType) -> (res: PartialLocalType)
        ensures
            res@ == ty@,
    {
        PartialLocalType::of_borrowed(&ty)
    }

    /// The types of the list as finished local types, where none holds a
    /// `Break`.
    fn to_local_types(choices: &Vec<PartialLocalType>) -> (res: Option<Vec<LocalType>>)
        ensures
            match res {
                Some(out) => local_types_view(out@) == partials_view(choices@) && forall|i: int|
                    0 <= i < choices.len() ==> !has_break(#[trigger] partials_view(choices@)[i]),
                None => exists|i: int|
                    0 <= i < choices.len() && has_break(#[trigger] partials_view(choices@)[i]),
            },
        decreases choices,
    {
        let mut out: Vec<LocalType> = Vec::new();
        let mut i: usize = 0;
        while i < choices.len()
            invariant
                i <= choices.len(),
                out.len() == i,
                forall|j: int| 0 <= j < i ==> (#[trigger] out@[j])@ == choices@[j]@,
                forall|j: int| 0 <= j < i ==> !has_break(#[trigger] partials_view(choices@)[j]),
            decreases choices.len() - i,
        {
            match choices[i].to_finished() {
                Some(t) => {
                    out.push(t);
                },
                None => {
                    assert(has_break(partials_view(choices@)[i as int]));
                    return None;
                },
            }
            i += 1;
        }
        Some(out)
    }

    /// The same type as a finished local type, where it holds no `Break`.
    fn to_finished(&self) -> (res: Option<LocalType>)
        ensures
            match res {
                Some(t) => t@ == self@ && !has_break(self@),
                None => has_break(self@),
            },
        decreases self,
    {
        match self {
            PartialLocalType::Send(label, ty) => match ty.to_finished() {
                Some(t) => Some(LocalType::Send(label.clone(), Box::new(t))),
                None => None,
            },
            PartialLocalType::Receive(label, ty) => match ty.to_finished() {
                Some(t) => Some(LocalType::Receive(label.clone(), Box::new(t))),
                None => None,
            },
            PartialLocalType::InternalChoice(choices) => {
                match PartialLocalType::to_local_types(choices) {
                    Some(out) => Some(LocalType::InternalChoice(out)),
                    None => None,
                }
            },
            PartialLocalType::ExternalChoice(choices) => {
                match PartialLocalType::to_local_types(choices) {
                    Some(out) => Some(LocalType::ExternalChoice(out)),
                    None => None,
                }
            },
            PartialLocalType::RecX(id, ty) => match ty.to_finished() {
                Some(t) => Some(LocalType::RecX(*id, Box::new(t))),
                None => None,
            },
            PartialLocalType::X(id) => Some(LocalType::X(*id)),
            PartialLocalType::Break => None,
            PartialLocalType::End => Some(LocalType::End),
        }
    }

    /// The same type as a finished local type. It is an error where the
    /// type holds a `Break`.
    pub fn to_local_type(&self) -> (res: Result<LocalType, String>)
        ensures
            match res {
                Ok(t) => t@ == self@ && !has_break(self@),
                Err(msg) => has_break(self@) && msg@
                    == "Break is not a valid local type. Please remove before converting to local type"@,
            },
    {
        match self.to_finished() {
            Some(t) => Ok(t),
            None => Err(
                String::from_str(
                    "Break is not a valid local type. Please remove before converting to local type",
                ),
            ),
        }
    }
}

impl LocalType {
    /// A copy of the list.
    fn clone_all(choices: &Vec<LocalType>) -> (out: Vec<LocalType>)
        ensures
            local_types_view(out@) == local_types_view(choices@),
        decreases choices,
    {
        let mut out: Vec<LocalType> = Vec::new();
        let mut i: usize = 0;
        while i < choices.len()
            invariant
                i <= choices.len(),
                out.len() == i,
                forall|j: int| 0 <= j < i ==> (#[trigger] out@[j])@ == choices@[j]@,
            decreases choices.len() - i,
        {
            out.push(choices[i].clone());
            i += 1;
        }
        out
    }

    /// Whether both lists hold the same types in the same order.
    fn same_all(a: &Vec<LocalType>, b: &Vec<LocalType>) -> (r: bool)
        ensures
            r == (local_types_view(a@) == local_types_view(b@)),
        decreases a,
    {
        if a.len() != b.len() {
            assert(local_types_view(a@).len() != local_types_view(b@).len());
            return false;
        }
        let mut i: usize = 0;
        while i < a.len()
            invariant
                i <= a.len(),
                a.len() == b.len(),
                forall|j: int| 0 <= j < i ==> local_types_view(a@)[j] == local_types_view(b@)[j],
            decreases a.len() - i,
        {
            if !a[i].same(&b[i]) {
                assert(local_types_view(a@)[i as int] != local_types_view(b@)[i as int]);
                return false;
            }
            i += 1;
        }
        assert(local_types_view(a@) =~= local_types_view(b@));
        true
    }

    /// Structural equality.
    pub fn same(&self, other: &LocalType) -> (r: bool)
        ensures
            r == (self@ == other@),
        decreases self,
    {
        match (self, other) {
            (LocalType::Send(l1, c1), LocalType::Send(l2, c2)) => *l1 == *l2 && c1.same(c2),
            (LocalType::Receive(l1, c1), LocalType::Receive(l2, c2)) => *l1 == *l2 && c1.same(c2),
            (LocalType::InternalChoice(a), LocalType::InternalChoice(b)) => LocalType::same_all(a, b),
            (LocalType::ExternalChoice(a), LocalType::ExternalChoice(b)) => LocalType::same_all(a, b),
            (LocalType::RecX(i1, c1), LocalType::RecX(i2, c2)) => *i1 == *i2 && c1.same(c2),
            (LocalType::X(i1), LocalType::X(i2)) => *i1 == *i2,
            (LocalType::End, LocalType::End) => true,
            _ => false,
        }
    }
}

impl Clone for LocalType {
    fn clone(&self) -> (res: LocalType)
        ensures
            res@ == self@,
        decreases self,
    {
        match self {
            LocalType::Send(label, cont) => LocalType::Send(label.clone(), Box::new((**cont).clone())),
            LocalType::Receive(label, cont) => LocalType::Receive(label.clone(), Box::new((**cont).clone())),
            LocalType::InternalChoice(choices) => LocalType::InternalChoice(LocalType::clone_all(choices)),
            LocalType::ExternalChoice(choices) => LocalType::ExternalChoice(LocalType::clone_all(choices)),
            LocalType::RecX(id, cont) => LocalType::RecX(*id, Box::new((**cont).clone())),
            LocalType::X(id) => LocalType::X(*id),
            LocalType::End => LocalType::End,
        }
    }
}

impl PartialEq for LocalType {
    fn eq(&self, other: &LocalType) -> (b: bool) {
        self.same(other)
    }
}

impl Eq for LocalType {

}

impl vstd::std_specs::cmp::PartialEqSpecImpl for LocalType {
    open spec fn obeys_eq_spec() -> bool {
        true
    }

    open spec fn eq_spec(&self, other: &LocalType) -> bool {
        self@ == other@
    }
}

impl PartialLocalType {
    /// Whether both lists hold the same types in the same order.
    fn same_all(a: &Vec<PartialLocalType>, b: &Vec<PartialLocalType>) -> (r: bool)
        ensures
            r == (partials_view(a@) == partials_view(b@)),
        decreases a,
    {
        if a.len() != b.len() {
            assert(partials_view(a@).len() != partials_view(b@).len());
            return false;
        }
        let mut i: usize = 0;
        while i < a.len()
            invariant
                i <= a.len(),
                a.len() == b.len(),
                forall|j: int| 0 <= j < i ==> partials_view(a@)[j] == partials_view(b@)[j],
            decreases a.len() - i,
        {
            if !a[i].same(&b[i]) {
                assert(partials_view(a@)[i as int] != partials_view(b@)[i as int]);
                return false;
            }
            i += 1;
        }
        assert(partials_view(a@) =~= partials_view(b@));
        true
    }

    /// Structural equality.
    pub fn same(&self, other: &PartialLocalType) -> (r: bool)
        ensures
            r == (self@ == other@),
        decreases self,
    {
        match (self, other) {
            (PartialLocalType::Send(l1, c1), PartialLocalType::Send(l2, c2)) => *l1 == *l2 && c1.same(c2),
            (PartialLocalType::Receive(l1, c1), PartialLocalType::Receive(l2, c2)) => *l1 == *l2
                && c1.same(c2),
            (PartialLocalType::InternalChoice(a), PartialLocalType::InternalChoice(b)) =>
                PartialLocalType::same_all(a, b),
            (PartialLocalType::ExternalChoice(a), PartialLocalType::ExternalChoice(b)) =>
                PartialLocalType::same_all(a, b),
            (PartialLocalType::RecX(i1, c1), PartialLocalType::RecX(i2, c2)) => *i1 == *i2 && c1.same(c2),
            (PartialLocalType::X(i1), PartialLocalType::X(i2)) => *i1 == *i2,
            (PartialLocalType::Break, PartialLocalType::Break) => true,
            (PartialLocalType::End, PartialLocalType::End) => true,
            _ => false,
        }
    }
}

impl PartialEq for PartialLocalType {
    fn eq(&self, other: &PartialLocalType) -> (b: bool) {
        self.same(other)
    }
}

impl Eq for PartialLocalType {

}

impl vstd::std_specs::cmp::PartialEqSpecImpl for PartialLocalType {
    open spec fn obeys_eq_spec() -> bool {
        true
    }

    open spec fn eq_spec(&self, other: &PartialLocalType) -> bool {
        self@ == other@
    }
}

impl Clone for PartialLocalType {
    fn clone(&self) -> (res: PartialLocalType)
        ensures
            res@ == self@,
        decreases self,
    {
        match self {
            PartialLocalType::Send(label, cont) => PartialLocalType::Send(
                label.clone(),
                Box::new((**cont).clone()),
            ),
            PartialLocalType::Receive(label, cont) => PartialLocalType::Receive(
                label.clone(),
                Box::new((**cont).clone()),
            ),
            PartialLocalType::InternalChoice(choices) => PartialLocalType::InternalChoice(
                PartialLocalType::clone_all(choices),
            ),
            PartialLocalType::ExternalChoice(choices) => PartialLocalType::ExternalChoice(
                PartialLocalType::clone_all(choices),
            ),
            PartialLocalType::RecX(id, cont) => PartialLocalType::RecX(*id, Box::new((**cont).clone())),
            PartialLocalType::X(id) => PartialLocalType::X(*id),
            PartialLocalType::Break => PartialLocalType::Break,
            PartialLocalType::End => PartialLocalType::End,
        }
    }
}

/// Some continuation of the list has the label.
pub open spec fn offers(conts: Seq<(Label, LocalSpec)>, label: Label) -> bool {
    exists|i: int| 0 <= i < conts.len() && (#[trigger] conts[i]).0 == label
}

/// The session type of a local type that was read off a program: sends
/// and receives become choices of one label, the partner is left open,
/// and a choice between sends, or between receives, becomes one choice of
/// their labels.
///
/// It is an error where an internal choice holds anything but sends, an
/// external choice anything but receives, or a choice the same label
/// twice; the error is that of the first alternative that is at fault.
pub open spec fn session_of(t: PartialSpec) -> Result<LocalSpec, Seq<char>>
    decreases t, 0nat,
{
    match t {
        PartialSpec::Send(label, cont) => match session_of(*cont) {
            Ok(ty) => Ok(LocalSpec::Select(None, seq![(label, ty)])),
            Err(e) => Err(e),
        },
        PartialSpec::Receive(label, cont) => match session_of(*cont) {
            Ok(ty) => Ok(LocalSpec::Branch(None, seq![(label, ty)])),
            Err(e) => Err(e),
        },
        PartialSpec::InternalChoice(choices) => match choice_of(choices, true, choices.len()) {
            Ok(conts) => Ok(LocalSpec::Select(None, conts)),
            Err(e) => Err(e),
        },
        PartialSpec::ExternalChoice(choices) => match choice_of(choices, false, choices.len()) {
            Ok(conts) => Ok(LocalSpec::Branch(None, conts)),
            Err(e) => Err(e),
        },
        PartialSpec::RecX(id, cont) => match session_of(*cont) {
            Ok(ty) => Ok(LocalSpec::RecX { cont: Box::new(ty), id, min_depth: None, max_depth: None }),
            Err(e) => Err(e),
        },
        PartialSpec::X(id) => Ok(LocalSpec::X(Some(id), false)),
        PartialSpec::End => Ok(LocalSpec::End),
        PartialSpec::Break => Err(
            "Break is not a valid local type. Please remove before converting to local type"@,
        ),
    }
}

/// The labelled continuations that the first `n` alternatives of a
/// choice stand for: see `session_of`.
pub open spec fn choice_of(choices: Seq<PartialSpec>, sending: bool, n: nat) -> Result<
    Seq<(Label, LocalSpec)>,
    Seq<char>,
>
    decreases choices, n,
{
    if n == 0 || n > choices.len() {
        Ok(Seq::empty())
    } else {
        match choice_of(choices, sending, (n - 1) as nat) {
            Err(e) => Err(e),
            Ok(before) => {
                let choice = choices[n - 1];
                match choice {
                    PartialSpec::Send(label, cont) => if !sending {
                        Err(
                            "External choice must be followed by a receive, found "@
                                + crate::render::inferred_text(choice),
                        )
                    } else if offers(before, label) {
                        Err("Label "@ + label + " is not unique"@)
                    } else {
                        match session_of(*cont) {
                            Ok(ty) => Ok(before.push((label, ty))),
                            Err(e) => Err(e),
                        }
                    },
                    PartialSpec::Receive(label, cont) => if sending {
                        Err(
                            "Internal choice must be followed by a send, found "@
                                + crate::render::inferred_text(choice),
                        )
                    } else if offers(before, label) {
                        Err("Label "@ + label + " is not unique"@)
                    } else {
                        match session_of(*cont) {
                            Ok(ty) => Ok(before.push((label, ty))),
                            Err(e) => Err(e),
                        }
                    },
                    _ => if sending {
                        Err(
                            "Internal choice must be followed by a send, found "@
                                + crate::render::inferred_text(choice),
                        )
                    } else {
                        Err(
                            "External choice must be followed by a receive, found "@
                                + crate::render::inferred_text(choice),
                        )
                    },
                }
            },
        }
    }
}

/// The mathematical value of a session type or of the message that says
/// why there is none.
pub open spec fn session_view(r: Result<MPSTLocalType, String>) -> Result<LocalSpec, Seq<char>> {
    match r {
        Ok(t) => Ok(t@),
        Err(msg) => Err(msg@),
    }
}

/// Whether some continuation of the list has the label.
fn offers_label(conts: &Vec<(String, MPSTLocalType)>, label: &String) -> (r: bool)
    ensures
        r == offers(conts_view(conts@), label@),
{
    let mut i: usize = 0;
    while i < conts.len()
        invariant
            i <= conts.len(),
            forall|j: int| 0 <= j < i ==> (#[trigger] conts_view(conts@)[j]).0 != label@,
        decreases conts.len() - i,
    {
        if conts[i].0 == *label {
            assert(conts_view(conts@)[i as int].0 == label@);
            return true;
        }
        i += 1;
    }
    false
}

impl LocalType {
    /// The message for an alternative that an internal choice cannot hold.
    fn not_a_send(&self) -> (msg: String)
        ensures
            msg@ == "Internal choice must be followed by a send, found "@ + crate::render::inferred_text(
                self@,
            ),
    {
        let mut msg = String::from_str("Internal choice must be followed by a send, found ");
        self.render_into(&mut msg);
        msg
    }

    /// The message for an alternative that an external choice cannot hold.
    fn not_a_receive(&self) -> (msg: String)
        ensures
            msg@ == "External choice must be followed by a receive, found "@
                + crate::render::inferred_text(self@),
    {
        let mut msg = String::from_str("External choice must be followed by a receive, found ");
        self.render_into(&mut msg);
        msg
    }

    /// The labelled continuations that the alternatives of a choice stand
    /// for.
    fn choice_conts(choices: &Vec<LocalType>, sending: bool) -> (res: Result<
        Vec<(String, MPSTLocalType)>,
        String,
    >)
        ensures
            match res {
                Ok(conts) => choice_of(local_types_view(choices@), sending, choices.len() as nat) == Ok::<
                    Seq<(Label, LocalSpec)>,
                    Seq<char>,
                >(conts_view(conts@)),
                Err(msg) => choice_of(local_types_view(choices@), sending, choices.len() as nat) == Err::<
                    Seq<(Label, LocalSpec)>,
                    Seq<char>,
                >(msg@),
            },
        decreases choices,
    {
        let ghost cv = local_types_view(choices@);
        let mut session_choices: Vec<(String, MPSTLocalType)> = Vec::new();
        let mut i: usize = 0;
        assert(conts_view(session_choices@) =~= Seq::empty());
        while i < choices.len()
            invariant
                i <= choices.len(),
                cv == local_types_view(choices@),
                choice_of(cv, sending, i as nat) == Ok::<Seq<(Label, LocalSpec)>, Seq<char>>(
                    conts_view(session_choices@),
                ),
            decreases choices.len() - i,
        {
            let ghost before = conts_view(session_choices@);
            match &choices[i] {
                LocalType::Send(label, cont) => {
                    if !sending {
                        let msg = choices[i].not_a_receive();
                        proof {
                            lemma_choice_error(cv, sending, (i + 1) as nat, choices.len() as nat);
                        }
                        return Err(msg);
                    }
                    if offers_label(&session_choices, label) {
                        let mut msg = String::from_str("Label ");
                        msg.append(label.as_str());
                        msg.append(" is not unique");
                        proof {
                            lemma_choice_error(cv, sending, (i + 1) as nat, choices.len() as nat);
                        }
                        return Err(msg);
                    }
                    match cont.to_session_type() {
                        Ok(ty) => {
                            session_choices.push((label.clone(), ty));
                            assert(conts_view(session_choices@) =~= before.push((label@, ty@)));
                        },
                        Err(msg) => {
                            proof {
                                lemma_choice_error(cv, sending, (i + 1) as nat, choices.len() as nat);
                            }
                            return Err(msg);
                        },
                    }
                },
                LocalType::Receive(label, cont) => {
                    if sending {
                        let msg = choices[i].not_a_send();
                        proof {
                            lemma_choice_error(cv, sending, (i + 1) as nat, choices.len() as nat);
                        }
                        return Err(msg);
                    }
                    if offers_label(&session_choices, label) {
                        let mut msg = String::from_str("Label ");
                        msg.append(label.as_str());
                        msg.append(" is not unique");
                        proof {
                            lemma_choice_error(cv, sending, (i + 1) as nat, choices.len() as nat);
                        }
                        return Err(msg);
                    }
                    match cont.to_session_type() {
                        Ok(ty) => {
                            session_choices.push((label.clone(), ty));
                            assert(conts_view(session_choices@) =~= before.push((label@, ty@)));
                        },
                        Err(msg) => {
                            proof {
                                lemma_choice_error(cv, sending, (i + 1) as nat, choices.len() as nat);
                            }
                            return Err(msg);
                        },
                    }
                },
                _ => {
                    let msg = if sending {
                        choices[i].not_a_send()
                    } else {
                        choices[i].not_a_receive()
                    };
                    proof {
                        lemma_choice_error(cv, sending, (i + 1) as nat, choices.len() as nat);
                    }
                    return Err(msg);
                },
            }
            i += 1;
        }
        Ok(session_choices)
    }

    /// The session type that the local type stands for: see `session_of`.
    pub fn to_session_type(&self) -> (res: Result<MPSTLocalType, String>)
        ensures
            session_view(res) == session_of(self@),
        decreases self,
    {
        match self {
            LocalType::Send(label, ty) => {
                match ty.to_session_type() {
                    Ok(ty) => Ok(MPSTLocalType::send(Participant::anonymous(), label.clone(), ty)),
                    Err(e) => Err(e),
                }
            },
            LocalType::Receive(label, ty) => {
                match ty.to_session_type() {
                    Ok(ty) => Ok(MPSTLocalType::receive(Participant::anonymous(), label.clone(), ty)),
                    Err(e) => Err(e),
                }
            },
            LocalType::InternalChoice(choices) => {
                match LocalType::choice_conts(choices, true) {
                    Ok(conts) => Ok(MPSTLocalType::Select(Participant::anonymous(), conts)),
                    Err(e) => Err(e),
                }
            },
            LocalType::ExternalChoice(choices) => {
                match LocalType::choice_conts(choices, false) {
                    Ok(conts) => Ok(MPSTLocalType::Branch(Participant::anonymous(), conts)),
                    Err(e) => Err(e),
                }
            },
            LocalType::RecX(id, ty) => {
                match ty.to_session_type() {
                    Ok(ty) => Ok(MPSTLocalType::recX_with_id(Box::new(ty), *id)),
                    Err(e) => Err(e),
                }
            },
            LocalType::X(id) => Ok(MPSTLocalType::x_with_id(*id)),
            LocalType::End => Ok(MPSTLocalType::End),
        }
    }
}

/// An error among the first alternatives of a choice is the error of the
/// whole choice.
pub proof fn lemma_choice_error(choices: Seq<PartialSpec>, sending: bool, n: nat, m: nat)
    requires
        n <= m <= choices.len(),
        choice_of(choices, sending, n) is Err,
    ensures
        choice_of(choices, sending, m) == choice_of(choices, sending, n),
    decreases m,
{
    if n < m {
        lemma_choice_error(choices, sending, n, (m - 1) as nat);
    }
}

} // verus!
