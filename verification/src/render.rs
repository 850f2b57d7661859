//! The textual forms of participants, local types and global types.

use crate::global_type::{global_conts_view, GlobalSpec, GlobalType};
use crate::ilt::{local_types_view, LocalType, PartialSpec};
use crate::parties::Parties;
use crate::session_type::{conts_view, Label, LocalSpec, MPSTLocalType, Participant, Role};
use vstd::prelude::*;
use vstd::string::StringExecFns;

verus! {

/// The decimal digit for a number below ten.
pub open spec fn digit(d: int) -> Seq<char> {
    if d == 0 {
        "0"@
    } else if d == 1 {
        "1"@
    } else if d == 2 {
        "2"@
    } else if d == 3 {
        "3"@
    } else if d == 4 {
        "4"@
    } else if d == 5 {
        "5"@
    } else if d == 6 {
        "6"@
    } else if d == 7 {
        "7"@
    } else if d == 8 {
        "8"@
    } else {
        "9"@
    }
}

/// The decimal digits of a natural number.
pub open spec fn digits(n: nat) -> Seq<char>
    decreases n,
{
    if n < 10 {
        digit(n as int)
    } else {
        digits(n / 10) + digit((n % 10) as int)
    }
}

/// The decimal form of an integer.
pub open spec fn decimal(v: int) -> Seq<char> {
    if v < 0 {
        "-"@ + digits((-v) as nat)
    } else {
        digits(v as nat)
    }
}

/// The text of an optional integer: `None`, or `Some(..)` around its
/// decimal form.
pub open spec fn optional_decimal(v: Option<int>) -> Seq<char> {
    match v {
        Some(x) => "Some("@ + decimal(x) + ")"@,
        None => "None"@,
    }
}

/// The text of a truth value.
pub open spec fn truth(b: bool) -> Seq<char> {
    if b {
        "true"@
    } else {
        "false"@
    }
}

/// The text of a participant: its name, or `?` for the anonymous one.
pub open spec fn role_text(r: Role) -> Seq<char> {
    match r {
        Some(name) => name,
        None => "?"@,
    }
}

fn digit_str(d: u64) -> (s: &'static str)
    requires
        d < 10,
    ensures
        s@ == digit(d as int),
{
    if d == 0 {
        "0"
    } else if d == 1 {
        "1"
    } else if d == 2 {
        "2"
    } else if d == 3 {
        "3"
    } else if d == 4 {
        "4"
    } else if d == 5 {
        "5"
    } else if d == 6 {
        "6"
    } else if d == 7 {
        "7"
    } else if d == 8 {
        "8"
    } else {
        "9"
    }
}

fn push_digits(n: u64, out: &mut String)
    ensures
        final(out)@ == old(out)@ + digits(n as nat),
    decreases n,
{
    if n >= 10 {
        push_digits(n / 10, out);
    }
    out.append(digit_str(n % 10));
}

/// Adds the decimal form of `v` to `out`.
pub fn push_decimal(v: i32, out: &mut String)
    ensures
        final(out)@ == old(out)@ + decimal(v as int),
{
    if v < 0 {
        out.append("-");
        let n: u64 = (-(v as i64)) as u64;
        push_digits(n, out);
    } else {
        push_digits(v as u64, out);
    }
}

fn push_optional_decimal(v: &Option<i32>, out: &mut String)
    ensures
        final(out)@ == old(out)@ + optional_decimal(crate::session_type::opt_int(*v)),
{
    match v {
        Some(x) => {
            out.append("Some(");
            push_decimal(*x, out);
            out.append(")");
        },
        None => {
            out.append("None");
        },
    }
}

fn push_role(p: &Participant, out: &mut String)
    ensures
        final(out)@ == old(out)@ + role_text(p@),
{
    match p.role() {
        Some(name) => {
            out.append(name.as_str());
        },
        None => {
            out.append("?");
        },
    }
}

impl Participant {
    /// The text of the participant.
    pub fn render(&self) -> (s: String)
        ensures
            s@ == role_text(self@),
    {
        let mut s = String::new();
        push_role(self, &mut s);
        s
    }
}

/// The text of a local type.
pub open spec fn local_text(t: LocalSpec) -> Seq<char>
    decreases t,
{
    match t {
        LocalSpec::Select(p, conts) => "Select<"@ + role_text(p) + ", {"@ + local_conts_text(conts) + "}"@,
        LocalSpec::Branch(p, conts) => "Branch<"@ + role_text(p) + ", {"@ + local_conts_text(conts) + "}"@,
        LocalSpec::RecX { cont, id, .. } => "Rec["@ + decimal(id) + "]<"@ + local_text(*cont) + ">"@,
        LocalSpec::X(id, mapped) => "X("@ + optional_decimal(id) + ", "@ + truth(mapped) + ")"@,
        LocalSpec::End => "End"@,
    }
}

/// The text of the continuations of a local choice.
pub open spec fn local_conts_text(conts: Seq<(Label, LocalSpec)>) -> Seq<char>
    decreases conts,
{
    if conts.len() == 0 {
        Seq::empty()
    } else {
        local_conts_text(conts.drop_last()) + (conts.last().0 + "."@ + local_text(conts.last().1) + ", "@)
    }
}

impl MPSTLocalType {
    fn render_conts(conts: &Vec<(String, MPSTLocalType)>, out: &mut String)
        ensures
            final(out)@ == old(out)@ + local_conts_text(conts_view(conts@)),
        decreases conts,
    {
        let ghost cv = conts_view(conts@);
        let mut i: usize = 0;
        while i < conts.len()
            invariant
                i <= conts.len(),
                cv == conts_view(conts@),
                out@ == old(out)@ + local_conts_text(cv.take(i as int)),
            decreases conts.len() - i,
        {
            out.append(conts[i].0.as_str());
            out.append(".");
            conts[i].1.render_into(out);
            out.append(", ");
            proof {
                assert(cv.take(i + 1).drop_last() =~= cv.take(i as int));
            }
            i += 1;
        }
        assert(cv.take(conts.len() as int) =~= cv);
    }

    /// Adds the text of the local type to `out`.
    pub fn render_into(&self, out: &mut String)
        ensures
            final(out)@ == old(out)@ + local_text(self@),
        decreases self,
    {
        match self {
            MPSTLocalType::Select(p, conts) => {
                out.append("Select<");
                push_role(p, out);
                out.append(", {");
                MPSTLocalType::render_conts(conts, out);
                out.append("}");
                assert(out@ =~= old(out)@ + ("Select<"@ + role_text(p@) + ", {"@ + local_conts_text(
                    conts_view(conts@),
                ) + "}"@));
            },
            MPSTLocalType::Branch(p, conts) => {
                out.append("Branch<");
                push_role(p, out);
                out.append(", {");
                MPSTLocalType::render_conts(conts, out);
                out.append("}");
                assert(out@ =~= old(out)@ + ("Branch<"@ + role_text(p@) + ", {"@ + local_conts_text(
                    conts_view(conts@),
                ) + "}"@));
            },
            MPSTLocalType::RecX { cont, id, .. } => {
                out.append("Rec[");
                push_decimal(*id, out);
                out.append("]<");
                cont.render_into(out);
                out.append(">");
                assert(out@ =~= old(out)@ + ("Rec["@ + decimal(*id as int) + "]<"@ + local_text(cont@)
                    + ">"@));
            },
            MPSTLocalType::X(id, mapped) => {
                out.append("X(");
                push_optional_decimal(id, out);
                out.append(", ");
                if *mapped {
                    out.append("true");
                } else {
                    out.append("false");
                }
                out.append(")");
                assert(out@ =~= old(out)@ + ("X("@ + optional_decimal(crate::session_type::opt_int(*id))
                    + ", "@ + truth(*mapped) + ")"@));
            },
            MPSTLocalType::End => {
                out.append("End");
            },
        }
    }

    /// The text of the local type.
    pub fn render(&self) -> (s: String)
        ensures
            s@ == local_text(self@),
    {
        let mut s = String::new();
        self.render_into(&mut s);
        s
    }
}

/// The text of a global type.
pub open spec fn global_text(t: GlobalSpec) -> Seq<char>
    decreases t,
{
    match t {
        GlobalSpec::Send(from, to, label, cont) => "Send<"@ + role_text(from) + ", "@ + role_text(to)
            + ", "@ + label + ", "@ + global_text(*cont) + ">"@,
        GlobalSpec::Select(from, to, conts) => "Select<"@ + role_text(from) + ", "@ + role_text(to)
            + ", { "@ + global_conts_text(conts) + "}>"@,
        GlobalSpec::RecX(id, cont) => "Rec["@ + decimal(id) + "]<"@ + global_text(*cont) + ">"@,
        GlobalSpec::X(id) => "X["@ + decimal(id) + "]"@,
        GlobalSpec::End => "end"@,
    }
}

/// The text of the continuations of a global choice.
pub open spec fn global_conts_text(conts: Seq<(Label, GlobalSpec)>) -> Seq<char>
    decreases conts,
{
    if conts.len() == 0 {
        Seq::empty()
    } else {
        global_conts_text(conts.drop_last()) + (conts.last().0 + ". "@ + global_text(conts.last().1)
            + ", "@)
    }
}

impl GlobalType {
    fn render_conts(conts: &Vec<(String, GlobalType)>, out: &mut String)
        ensures
            final(out)@ == old(out)@ + global_conts_text(global_conts_view(conts@)),
        decreases conts,
    {
        let ghost cv = global_conts_view(conts@);
        let mut i: usize = 0;
        while i < conts.len()
            invariant
                i <= conts.len(),
                cv == global_conts_view(conts@),
                out@ == old(out)@ + global_conts_text(cv.take(i as int)),
            decreases conts.len() - i,
        {
            out.append(conts[i].0.as_str());
            out.append(". ");
            conts[i].1.render_into(out);
            out.append(", ");
            proof {
                assert(cv.take(i + 1).drop_last() =~= cv.take(i as int));
            }
            i += 1;
        }
        assert(cv.take(conts.len() as int) =~= cv);
    }

    /// Adds the text of the global type to `out`.
    pub fn render_into(&self, out: &mut String)
        ensures
            final(out)@ == old(out)@ + global_text(self@),
        decreases self,
    {
        match self {
            GlobalType::Send(from, to, label, cont) => {
                out.append("Send<");
                push_role(from, out);
                out.append(", ");
                push_role(to, out);
                out.append(", ");
                out.append(label.as_str());
                out.append(", ");
                cont.render_into(out);
                out.append(">");
                assert(out@ =~= old(out)@ + ("Send<"@ + role_text(from@) + ", "@ + role_text(to@) + ", "@
                    + label@ + ", "@ + global_text(cont@) + ">"@));
            },
            GlobalType::Select(from, to, conts) => {
                out.append("Select<");
                push_role(from, out);
                out.append(", ");
                push_role(to, out);
                out.append(", { ");
                GlobalType::render_conts(conts, out);
                out.append("}>");
                assert(out@ =~= old(out)@ + ("Select<"@ + role_text(from@) + ", "@ + role_text(to@)
                    + ", { "@ + global_conts_text(global_conts_view(conts@)) + "}>"@));
            },
            GlobalType::RecX(id, cont) => {
                out.append("Rec[");
                push_decimal(*id, out);
                out.append("]<");
                cont.render_into(out);
                out.append(">");
                assert(out@ =~= old(out)@ + ("Rec["@ + decimal(*id as int) + "]<"@ + global_text(cont@)
                    + ">"@));
            },
            GlobalType::X(id) => {
                out.append("X[");
                push_decimal(*id, out);
                out.append("]");
            },
            GlobalType::End => {
                out.append("end");
            },
        }
    }

    /// The text of the global type.
    pub fn render(&self) -> (s: String)
        ensures
            s@ == global_text(self@),
    {
        let mut s = String::new();
        self.render_into(&mut s);
        s
    }
}

/// The text of the participants with their residual local types.
pub open spec fn parties_text(ps: Seq<(Role, LocalSpec)>) -> Seq<char>
    decreases ps.len(),
{
    if ps.len() == 0 {
        Seq::empty()
    } else {
        parties_text(ps.drop_last()) + (role_text(ps.last().0) + ": "@ + local_text(ps.last().1) + ", "@)
    }
}

impl Parties {
    /// The text of the state: each participant with its residual local
    /// type.
    pub fn render(&self) -> (s: String)
        ensures
            s@ == "Parties { "@ + parties_text(self@.parties) + "}"@,
    {
        let ghost ps = self@.parties;
        let mut s = String::new();
        s.append("Parties { ");
        let mut i: usize = 0;
        while i < self.parties.len()
            invariant
                i <= self.parties.len(),
                ps == self@.parties,
                s@ == "Parties { "@ + parties_text(ps.take(i as int)),
            decreases self.parties.len() - i,
        {
            push_role(&self.parties[i].0, &mut s);
            s.append(": ");
            self.parties[i].1.render_into(&mut s);
            s.append(", ");
            proof {
                assert(ps.take(i + 1).drop_last() =~= ps.take(i as int));
            }
            i += 1;
        }
        assert(ps.take(self.parties.len() as int) =~= ps);
        s.append("}");
        s
    }
}

/// The text of a local type that was read off a program.
pub open spec fn inferred_text(t: PartialSpec) -> Seq<char>
    decreases t,
{
    match t {
        PartialSpec::Send(label, cont) => "Send(?, "@ + label + ", "@ + inferred_text(*cont) + ")"@,
        PartialSpec::Receive(label, cont) => "Receive(?, "@ + label + ", "@ + inferred_text(*cont) + ")"@,
        PartialSpec::RecX(_, cont) => "\u{3bc}X."@ + inferred_text(*cont),
        PartialSpec::X(_) => "X"@,
        PartialSpec::End => "end"@,
        PartialSpec::Break => "break"@,
        PartialSpec::InternalChoice(choices) => "InternalChoice("@ + inferred_list_text(choices) + ")"@,
        PartialSpec::ExternalChoice(choices) => "ExternalChoice("@ + inferred_list_text(choices) + ")"@,
    }
}

/// The text of the alternatives of a choice that was read off a program.
pub open spec fn inferred_list_text(choices: Seq<PartialSpec>) -> Seq<char>
    decreases choices,
{
    if choices.len() == 0 {
        Seq::empty()
    } else {
        inferred_list_text(choices.drop_last()) + (inferred_text(choices.last()) + ", "@)
    }
}

impl LocalType {
    fn render_list(choices: &Vec<LocalType>, out: &mut String)
        ensures
            final(out)@ == old(out)@ + inferred_list_text(local_types_view(choices@)),
        decreases choices,
    {
        let ghost cv = local_types_view(choices@);
        let mut i: usize = 0;
        while i < choices.len()
            invariant
                i <= choices.len(),
                cv == local_types_view(choices@),
                out@ == old(out)@ + inferred_list_text(cv.take(i as int)),
            decreases choices.len() - i,
        {
            choices[i].render_into(out);
            out.append(", ");
            proof {
                assert(cv.take(i + 1).drop_last() =~= cv.take(i as int));
            }
            i += 1;
        }
        assert(cv.take(choices.len() as int) =~= cv);
    }

    /// Adds the text of the local type to `out`.
    pub fn render_into(&self, out: &mut String)
        ensures
            final(out)@ == old(out)@ + inferred_text(self@),
        decreases self,
    {
        match self {
            LocalType::Send(label, cont) => {
                out.append("Send(?, ");
                out.append(label.as_str());
                out.append(", ");
                cont.render_into(out);
                out.append(")");
            },
            LocalType::Receive(label, cont) => {
                out.append("Receive(?, ");
                out.append(label.as_str());
                out.append(", ");
                cont.render_into(out);
                out.append(")");
                assert(out@ =~= old(out)@ + ("Receive(?, "@ + label@ + ", "@ + inferred_text(cont@)
                    + ")"@));
            },
            LocalType::RecX(_, cont) => {
                out.append("\u{3bc}X.");
                cont.render_into(out);
            },
            LocalType::X(_) => {
                out.append("X");
            },
            LocalType::End => {
                out.append("end");
            },
            LocalType::InternalChoice(choices) => {
                out.append("InternalChoice(");
                LocalType::render_list(choices, out);
                out.append(")");
                assert(out@ =~= old(out)@ + ("InternalChoice("@ + inferred_list_text(
                    local_types_view(choices@),
                ) + ")"@));
            },
            LocalType::ExternalChoice(choices) => {
                out.append("ExternalChoice(");
                LocalType::render_list(choices, out);
                out.append(")");
                assert(out@ =~= old(out)@ + ("ExternalChoice("@ + inferred_list_text(
                    local_types_view(choices@),
                ) + ")"@));
            },
        }
    }

    /// The text of the local type.
    pub fn render(&self) -> (s: String)
        ensures
            s@ == inferred_text(self@),
    {
        let mut s = String::new();
        self.render_into(&mut s);
        s
    }
}

} // verus!
