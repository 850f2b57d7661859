//! The order of participants: the anonymous participant first, then the
//! named ones by the bytes of their names.

use crate::session_type::{Participant, Role};
use std::cmp::Ordering;
use vstd::prelude::*;
use vstd::string::StringSliceAdditionalSpecFns;
use vstd::utf8::{encode_utf8, encode_utf8_decode_utf8};

verus! {

/// `a` comes before `b` in the lexicographic order of byte strings, given
/// that both agree on their first `i` bytes.
pub open spec fn bytes_lt_from(a: Seq<u8>, b: Seq<u8>, i: int) -> bool
    decreases a.len() - i,
{
    if i < 0 || i >= b.len() {
        false
    } else if i >= a.len() {
        true
    } else if a[i] != b[i] {
        a[i] < b[i]
    } else {
        bytes_lt_from(a, b, i + 1)
    }
}

/// `a` comes before `b` in the lexicographic order of byte strings.
pub open spec fn bytes_lt(a: Seq<u8>, b: Seq<u8>) -> bool {
    bytes_lt_from(a, b, 0)
}

/// The name `a` comes before the name `b`: by their bytes in UTF-8.
pub open spec fn name_lt(a: Seq<char>, b: Seq<char>) -> bool {
    bytes_lt(encode_utf8(a), encode_utf8(b))
}

/// The participant `a` comes before the participant `b`.
pub open spec fn role_lt(a: Role, b: Role) -> bool {
    match (a, b) {
        (None, Some(_)) => true,
        (Some(x), Some(y)) => name_lt(x, y),
        _ => false,
    }
}

proof fn lemma_bytes_irreflexive(a: Seq<u8>, i: int)
    requires
        0 <= i,
    ensures
        !bytes_lt_from(a, a, i),
    decreases a.len() - i,
{
    if i < a.len() {
        lemma_bytes_irreflexive(a, i + 1);
    }
}

proof fn lemma_bytes_transitive(a: Seq<u8>, b: Seq<u8>, c: Seq<u8>, i: int)
    requires
        0 <= i,
        bytes_lt_from(a, b, i),
        bytes_lt_from(b, c, i),
    ensures
        bytes_lt_from(a, c, i),
    decreases a.len() - i,
{
    if i < a.len() && a[i] == b[i] && b[i] == c[i] {
        lemma_bytes_transitive(a, b, c, i + 1);
    }
}

proof fn lemma_bytes_total(a: Seq<u8>, b: Seq<u8>, i: int)
    requires
        0 <= i <= a.len(),
        i <= b.len(),
        forall|j: int| 0 <= j < i ==> a[j] == b[j],
        !bytes_lt_from(a, b, i),
        !bytes_lt_from(b, a, i),
    ensures
        a == b,
    decreases a.len() - i,
{
    if i < a.len() && i < b.len() {
        lemma_bytes_total(a, b, i + 1);
    }
}

/// No participant comes before itself.
pub proof fn lemma_role_lt_irreflexive(a: Role)
    ensures
        !role_lt(a, a),
{
    if let Some(x) = a {
        lemma_bytes_irreflexive(encode_utf8(x), 0);
    }
}

/// The order of participants is transitive.
pub proof fn lemma_role_lt_transitive(a: Role, b: Role, c: Role)
    requires
        role_lt(a, b),
        role_lt(b, c),
    ensures
        role_lt(a, c),
{
    if let (Some(x), Some(y), Some(z)) = (a, b, c) {
        lemma_bytes_transitive(encode_utf8(x), encode_utf8(y), encode_utf8(z), 0);
    }
}

/// Of two different participants one comes before the other.
pub proof fn lemma_role_lt_total(a: Role, b: Role)
    ensures
        a == b || role_lt(a, b) || role_lt(b, a),
{
    if let (Some(x), Some(y)) = (a, b) {
        if !name_lt(x, y) && !name_lt(y, x) {
            lemma_bytes_total(encode_utf8(x), encode_utf8(y), 0);
            encode_utf8_decode_utf8(x);
            encode_utf8_decode_utf8(y);
        }
    }
}

/// No two participants come before each other.
pub proof fn lemma_role_lt_asymmetric(a: Role, b: Role)
    requires
        role_lt(a, b),
    ensures
        !role_lt(b, a),
{
    if role_lt(b, a) {
        lemma_role_lt_transitive(a, b, a);
        lemma_role_lt_irreflexive(a);
    }
}

/// Whether the name `a` comes before the name `b`.
pub fn name_precedes(a: &str, b: &str) -> (r: bool)
    ensures
        r == name_lt(a@, b@),
{
    let x = a.as_bytes();
    let y = b.as_bytes();
    let mut i: usize = 0;
    while i < x.len() && i < y.len()
        invariant
            i <= x.len(),
            i <= y.len(),
            x@ == encode_utf8(a@),
            y@ == encode_utf8(b@),
            bytes_lt(x@, y@) == bytes_lt_from(x@, y@, i as int),
        decreases x.len() - i,
    {
        if x[i] != y[i] {
            return x[i] < y[i];
        }
        i += 1;
    }
    i < y.len()
}

impl Participant {
    /// Whether this participant comes before the other in the order of
    /// participants.
    pub fn precedes(&self, other: &Participant) -> (r: bool)
        ensures
            r == role_lt(self@, other@),
    {
        match (self.role(), other.role()) {
            (None, Some(_)) => true,
            (Some(a), Some(b)) => name_precedes(a.as_str(), b.as_str()),
            _ => false,
        }
    }
}

impl PartialOrd for Participant {
    fn partial_cmp(&self, other: &Participant) -> (r: Option<Ordering>) {
        if self.precedes(other) {
            Some(Ordering::Less)
        } else if other.precedes(self) {
            Some(Ordering::Greater)
        } else {
            Some(Ordering::Equal)
        }
    }
}

impl vstd::std_specs::cmp::PartialOrdSpecImpl for Participant {
    open spec fn obeys_partial_cmp_spec() -> bool {
        true
    }

    open spec fn partial_cmp_spec(&self, other: &Participant) -> Option<Ordering> {
        if role_lt(self@, other@) {
            Some(Ordering::Less)
        } else if role_lt(other@, self@) {
            Some(Ordering::Greater)
        } else {
            Some(Ordering::Equal)
        }
    }
}

} // verus!
