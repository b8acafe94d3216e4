use vstd::prelude::*;

use crate::addr_index::push_char;
use crate::error::ManagerError;
use crate::kinds::MainConfiguration;
use crate::options::{Options, addrs_known, next_nonce_spec};
use crate::reader::DataRequest;

verus! {

/// Status of a successful request.
pub const STATUS_OK: u16 = 200;

/// Status of a malformed or refused request.
pub const STATUS_BAD_REQUEST: u16 = 400;

/// Status of an update that carried a stale nonce.
pub const STATUS_CONFLICT: u16 = 409;

/// Status of a request that failed on the server's side.
pub const STATUS_SERVER_ERROR: u16 = 500;

/// The status and text body of an HTTP answer.
#[derive(Debug)]
pub struct HttpReply {
    pub status: u16,
    pub body: String,
}

/// The character of decimal digit `d`.
pub open spec fn digit_char(d: nat) -> char {
    seq!['0', '1', '2', '3', '4', '5', '6', '7', '8', '9'][d as int]
}

/// The decimal digits of `m`, most significant first.
pub open spec fn digits(m: nat) -> Seq<char>
    decreases m,
{
    if m < 10 {
        seq![digit_char(m)]
    } else {
        digits(m / 10).push(digit_char(m % 10))
    }
}

/// The decimal text of `n`, with a leading `-` when negative.
pub open spec fn decimal(n: int) -> Seq<char> {
    if n < 0 {
        seq!['-'] + digits((-n) as nat)
    } else {
        digits(n as nat)
    }
}

fn push_digits(out: &mut String, m: u64)
    ensures
        final(out)@ == old(out)@ + digits(m as nat),
    decreases m,
{
    if m >= 10 {
        push_digits(out, m / 10);
    }
    let c = match m % 10 {
        0 => '0',
        1 => '1',
        2 => '2',
        3 => '3',
        4 => '4',
        5 => '5',
        6 => '6',
        7 => '7',
        8 => '8',
        _ => '9',
    };
    push_char(out, c);
    proof {
        if m >= 10 {
            assert(digits(m as nat) == digits((m / 10) as nat).push(digit_char((m % 10) as nat)));
        }
    }
    assert(out@ =~= old(out)@ + digits(m as nat));
}

/// The decimal text of `n`.
pub fn decimal_text(n: i32) -> (r: String)
    ensures
        r@ == decimal(n as int),
{
    let mut out = String::new();
    let m: u64 = if n < 0 {
        push_char(&mut out, '-');
        (0i64 - n as i64) as u64
    } else {
        n as u64
    };
    push_digits(&mut out, m);
    out
}

/// Answers a PUT of options: the new nonce as text with 200, 409 for a
/// stale nonce, 400 for an unknown address. `current` changes only on 200.
pub fn put_options(current: &mut Options, proposed: Options, index_len: usize) -> (r: HttpReply)
    ensures
        proposed.nonce != old(current).nonce ==> r.status == STATUS_CONFLICT && r.body@.len() == 0,
        proposed.nonce == old(current).nonce && !addrs_known(proposed.addrs@, index_len as int)
            ==> r.status == STATUS_BAD_REQUEST && r.body@.len() == 0,
        r.status != STATUS_OK ==> *final(current) == *old(current),
        proposed.nonce == old(current).nonce && addrs_known(proposed.addrs@, index_len as int)
            ==> {
            &&& r.status == STATUS_OK
            &&& r.body@ == decimal(next_nonce_spec(old(current).nonce) as int)
            &&& final(current).nonce == next_nonce_spec(old(current).nonce)
            &&& final(current).addrs@ == proposed.addrs@
            &&& final(current).interval == proposed.interval
            &&& final(current).avg_across == proposed.avg_across
            &&& final(current).pause == proposed.pause
        },
{
    match current.update(proposed, index_len) {
        Ok(nonce) => HttpReply { status: STATUS_OK, body: decimal_text(nonce) },
        Err(ManagerError::NonceConflict) => HttpReply {
            status: STATUS_CONFLICT,
            body: String::new(),
        },
        Err(_) => HttpReply { status: STATUS_BAD_REQUEST, body: String::new() },
    }
}

/// The status a range request gets before any data is read: 200 when its
/// nonce is current, 400 otherwise.
pub fn range_request_status(req: &DataRequest, current_nonce: i32) -> (r: u16)
    ensures
        r == if req.nonce == current_nonce {
            STATUS_OK
        } else {
            STATUS_BAD_REQUEST
        },
{
    if req.nonce == current_nonce {
        STATUS_OK
    } else {
        STATUS_BAD_REQUEST
    }
}

/// The body that tells clients the WebSocket port: its decimal text.
pub fn ws_port_body(cfg: &MainConfiguration) -> (r: String)
    ensures
        r@ == decimal(cfg.ws_port as int),
{
    decimal_text(cfg.ws_port as i32)
}

} // verus!
