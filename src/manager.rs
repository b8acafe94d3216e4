use vstd::prelude::*;

use crate::addr_index::{AddrIndex, holds, id_in};
use crate::error::ManagerError;
use crate::kinds::{Kind, default_options_spec, tcpping_bootstrap_addr};
use crate::options::Options;

verus! {

/// The options of a probe whose options file is still empty: the kind's
/// bootstrap address is entered in `index` (keeping its id if it is there
/// already), and the fresh options watch it.
pub fn bootstrap_options(kind: Kind, index: &mut AddrIndex) -> (r: Result<Options, ManagerError>)
    requires
        old(index).wf(),
        old(index)@.len() < u32::MAX,
    ensures
        final(index).wf(),
        r is Ok,
        holds(final(index)@, tcpping_bootstrap_addr()),
        r matches Ok(o) ==> default_options_spec(o, id_in(final(index)@, tcpping_bootstrap_addr())->0),
        holds(old(index)@, tcpping_bootstrap_addr()) ==> final(index)@ == old(index)@,
        !holds(old(index)@, tcpping_bootstrap_addr()) ==> final(index)@ == old(index)@.push(
            tcpping_bootstrap_addr(),
        ),
{
    let (addr, _interval) = kind.default_options_bootstrap();
    proof {
        reveal_strlit("google.com:80");
        assert forall|j: int| 0 <= j < addr@.len() implies addr@[j] != '\n' by {}
    }
    let id = index.add_addr(addr)?;
    proof {
        crate::addr_index::lemma_bijection(index@);
        if !holds(old(index)@, addr@) {
            assert(index@[old(index)@.len() as int] == addr@);
            assert(id_in(index@, index@[old(index)@.len() as int]) == Some(
                old(index)@.len() as u32,
            ));
        }
    }
    Ok(kind.default_options(id))
}

/// The web error kinds and the status each answers with.
#[derive(Debug, Clone, Copy, PartialEq, Eq, Structural)]
pub enum SPWebError {
    NotFound,
    InvalidMethod,
    NotImplemented,
    BadRequest,
    ServerError,
    NonceConflict,
}

impl SPWebError {
    /// The HTTP status of this error.
    pub fn status(&self) -> (r: u16)
        ensures
            *self is NotFound ==> r == 404,
            *self is InvalidMethod ==> r == 405,
            *self is NotImplemented ==> r == 501,
            *self is BadRequest ==> r == 400,
            *self is ServerError ==> r == 500,
            *self is NonceConflict ==> r == 409,
    {
        match self {
            SPWebError::NotFound => 404,
            SPWebError::InvalidMethod => 405,
            SPWebError::NotImplemented => 501,
            SPWebError::BadRequest => 400,
            SPWebError::ServerError => 500,
            SPWebError::NonceConflict => 409,
        }
    }

    /// A one-line message for the client.
    pub fn description(&self) -> (r: &'static str)
        ensures
            *self is NonceConflict ==> r@
                == "The nonce given does not match the current nonce, refusing update."@,
            *self is BadRequest ==> r@ == "Bad request (malformed or missing fields)."@,
    {
        proof {
            reveal_strlit("The nonce given does not match the current nonce, refusing update.");
            reveal_strlit("Bad request (malformed or missing fields).");
        }
        match self {
            SPWebError::NotFound => "Resource not found.",
            SPWebError::InvalidMethod => "Invalid method.",
            SPWebError::NotImplemented => "Handler not yet implemented.",
            SPWebError::BadRequest => "Bad request (malformed or missing fields).",
            SPWebError::ServerError => "Server encountered an error.",
            SPWebError::NonceConflict => "The nonce given does not match the current nonce, refusing update.",
        }
    }

    /// The error a manager failure answers with: 409 for a stale nonce, 400
    /// for an unknown address, 500 for a file that failed.
    pub fn from_manager(e: &ManagerError) -> (r: SPWebError)
        ensures
            *e is NonceConflict ==> r == SPWebError::NonceConflict,
            *e is InvalidAddrArgument ==> r == SPWebError::BadRequest,
            !(*e is NonceConflict) && !(*e is InvalidAddrArgument) ==> r == SPWebError::ServerError,
    {
        match e {
            ManagerError::NonceConflict => SPWebError::NonceConflict,
            ManagerError::InvalidAddrArgument => SPWebError::BadRequest,
            _ => SPWebError::ServerError,
        }
    }
}

} // verus!
