//! What the attribute `infer_session_type` puts beside a function: two
//! functions that return the local type and the session type read off
//! the body of the function.

use crate::codegen::{inferred_code, session_code, Code, CodeSpec};
use crate::ilt::{has_break, session_of};
use crate::parse::{block_type, infer_block_session_type};
use crate::syntax::{Block, BlockSpec};
use vstd::prelude::*;
use vstd::string::StringExecFns;

verus! {

/// The mathematical value of what is generated beside a function.
pub ghost struct GeneratedSpec {
    pub session_type_id: Seq<char>,
    pub rumpsteak_session_type_id: Seq<char>,
    pub ilt: CodeSpec,
    pub rumpsteak_session_type: Result<CodeSpec, Seq<char>>,
}

/// What is generated beside a function.
#[derive(Debug)]
pub struct Generated {
    /// The name of the function that returns the local type.
    pub session_type_id: String,
    /// The name of the function that returns the session type.
    pub rumpsteak_session_type_id: String,
    /// The expression that builds the local type.
    pub ilt: Code,
    /// The expression that builds the session type, or the message that
    /// says why the local type has none.
    pub rumpsteak_session_type: Result<Code, String>,
}

/// The mathematical value of a generated expression or of the message in
/// its place.
pub open spec fn code_result_view(r: Result<Code, String>) -> Result<CodeSpec, Seq<char>> {
    match r {
        Ok(c) => Ok(c@),
        Err(msg) => Err(msg@),
    }
}

impl View for Generated {
    type V = GeneratedSpec;

    open spec fn view(&self) -> GeneratedSpec {
        GeneratedSpec {
            session_type_id: self.session_type_id@,
            rumpsteak_session_type_id: self.rumpsteak_session_type_id@,
            ilt: self.ilt@,
            rumpsteak_session_type: code_result_view(self.rumpsteak_session_type),
        }
    }
}

/// The mathematical value of what the attribute makes of a function.
pub open spec fn generated_view(r: Result<Generated, String>) -> Result<GeneratedSpec, Seq<char>> {
    match r {
        Ok(g) => Ok(g@),
        Err(msg) => Err(msg@),
    }
}

/// What is generated beside the function `fn_ident` with the body
/// `block`, or the message that says why nothing is: the body has no
/// local type, or one that leaves a loop that is not there.
pub open spec fn generated(fn_ident: Seq<char>, block: BlockSpec) -> Result<GeneratedSpec, Seq<char>> {
    match block_type(block, 0) {
        Err(msg) => Err(msg),
        Ok(partial) => if has_break(partial) {
            Err("Break is not a valid local type. Please remove before converting to local type"@)
        } else {
            Ok(
                GeneratedSpec {
                    session_type_id: "get_session_type_"@ + fn_ident,
                    rumpsteak_session_type_id: "get_rumpsteak_session_type_"@ + fn_ident,
                    ilt: inferred_code(partial),
                    rumpsteak_session_type: match session_of(partial) {
                        Ok(t) => Ok(session_code(t)),
                        Err(msg) => Err(msg),
                    },
                },
            )
        },
    }
}

/// Infers the local type and the session type of the function `fn_ident`
/// from its body `block`, and says what is to be generated beside the
/// function: see `generated`.
pub fn infer_session_type(fn_ident: &str, block: &Block) -> (res: Result<Generated, String>)
    ensures
        generated_view(res) == generated(fn_ident@, block@),
{
    let partial = match infer_block_session_type(block, 0) {
        Ok(t) => t,
        Err(msg) => {
            return Err(msg);
        },
    };
    let local_type = match partial.to_local_type() {
        Ok(t) => t,
        Err(msg) => {
            return Err(msg);
        },
    };
    let ilt = local_type.to_syn_ast();
    let mut session_type_id = String::from_str("get_session_type_");
    session_type_id.append(fn_ident);
    let mut rumpsteak_session_type_id = String::from_str("get_rumpsteak_session_type_");
    rumpsteak_session_type_id.append(fn_ident);
    let rumpsteak_session_type = match local_type.to_session_type() {
        Ok(rs_type) => Ok(rs_type.to_syn_ast()),
        Err(err) => Err(err),
    };
    Ok(Generated { session_type_id, rumpsteak_session_type_id, ilt, rumpsteak_session_type })
}

} // verus!
