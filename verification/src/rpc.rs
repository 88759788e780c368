//! Unary-call transport: one call carries the whole payload, and the reply
//! has to be the request, byte for byte.

use crate::error::{ExchangeError, Mismatch};
use crate::wire::{sentinel_fill, sentinel_payload};
use vstd::prelude::*;

verus! {

/// Length of the longest common prefix of `a` and `b`.
pub open spec fn common_prefix_len(a: Seq<u8>, b: Seq<u8>) -> nat
    decreases a.len(),
{
    if a.len() > 0 && b.len() > 0 && a[0] == b[0] {
        1 + common_prefix_len(a.drop_first(), b.drop_first())
    } else {
        0
    }
}

/// The common prefix is common, and it ends where the two first differ or
/// where the shorter one ends.
pub proof fn lemma_common_prefix(a: Seq<u8>, b: Seq<u8>)
    ensures
        ({
            let n = common_prefix_len(a, b) as int;
            &&& n <= a.len()
            &&& n <= b.len()
            &&& forall|i: int| 0 <= i < n ==> a[i] == b[i]
            &&& n < a.len() && n < b.len() ==> a[n] != b[n]
            &&& a == b <==> n == a.len() && a.len() == b.len()
        }),
    decreases a.len(),
{
    if a.len() > 0 && b.len() > 0 && a[0] == b[0] {
        let (x, y) = (a.drop_first(), b.drop_first());
        lemma_common_prefix(x, y);
        let n = common_prefix_len(x, y) as int;
        assert forall|i: int| 0 <= i < n + 1 implies a[i] == b[i] by {
            if i > 0 {
                assert(a[i] == x[i - 1] && b[i] == y[i - 1]);
            }
        }
        if n < x.len() && n < y.len() {
            assert(a[n + 1] == x[n] && b[n + 1] == y[n]);
        }
        if n == x.len() && x.len() == y.len() {
            assert(a =~= b);
        }
        if a == b {
            assert(x =~= y);
        }
    } else if a.len() == 0 && b.len() == 0 {
        assert(a =~= b);
    }
}

/// What checking `response` against `request` yields: nothing to object to
/// when they are equal, else the length if it differs, else the first byte
/// that does.
pub open spec fn echo_verdict(request: Seq<u8>, response: Seq<u8>) -> Result<(), ExchangeError> {
    if response.len() != request.len() {
        Err(
            ExchangeError::Verification(
                Mismatch::WrongLength {
                    expected: request.len() as usize,
                    actual: response.len() as usize,
                },
            ),
        )
    } else if response != request {
        Err(
            ExchangeError::Verification(
                Mismatch::WrongByte {
                    offset: common_prefix_len(request, response) as usize,
                    found: response[common_prefix_len(request, response) as int],
                },
            ),
        )
    } else {
        Ok(())
    }
}

/// The blob of a request: `size` sentinel bytes.
pub fn request_payload(size: usize) -> (payload: Vec<u8>)
    ensures
        payload@ == sentinel_fill(size as nat),
{
    sentinel_payload(size)
}

/// Checks the reply of a call against its request. Only an exact echo, same
/// length and same bytes, passes.
pub fn check_echo(request: &[u8], response: &[u8]) -> (verdict: Result<(), ExchangeError>)
    ensures
        verdict == echo_verdict(request@, response@),
        verdict is Ok <==> response@ == request@,
{
    proof {
        lemma_common_prefix(request@, response@);
    }
    if response.len() != request.len() {
        return Err(
            ExchangeError::Verification(
                Mismatch::WrongLength { expected: request.len(), actual: response.len() },
            ),
        );
    }
    let mut i: usize = 0;
    assert(request@.skip(0) =~= request@ && response@.skip(0) =~= response@);
    while i < request.len()
        invariant
            i <= request@.len(),
            request@.len() == response@.len(),
            common_prefix_len(request@, response@) == i + common_prefix_len(
                request@.skip(i as int),
                response@.skip(i as int),
            ),
        decreases request@.len() - i,
    {
        assert(request@.skip(i as int)[0] == request@[i as int]);
        assert(response@.skip(i as int)[0] == response@[i as int]);
        if response[i] != request[i] {
            return Err(
                ExchangeError::Verification(Mismatch::WrongByte { offset: i, found: response[i] }),
            );
        }
        assert(request@.skip(i as int).drop_first() =~= request@.skip(i + 1));
        assert(response@.skip(i as int).drop_first() =~= response@.skip(i + 1));
        i += 1;
    }
    Ok(())
}

/// The echo service: answers every call with the blob it was sent.
#[derive(Debug)]
pub struct MyEchoer {}

impl MyEchoer {
    /// The reply to a call that carries `message`.
    pub open spec fn reply_to(message: Seq<u8>) -> Seq<u8> {
        message
    }

    /// Handles one call: the reply is the request, unchanged.
    pub fn echo(&self, message: Vec<u8>) -> (reply: Vec<u8>)
        ensures
            reply@ == Self::reply_to(message@),
    {
        message
    }
}

impl Default for MyEchoer {
    fn default() -> (echoer: MyEchoer)
        ensures
            echoer == (MyEchoer {  }),
    {
        MyEchoer {  }
    }
}

/// A call answered by the echo service always passes the check, whatever its
/// payload.
pub proof fn lemma_echo_service_passes(request: Seq<u8>)
    ensures
        echo_verdict(request, MyEchoer::reply_to(request)) is Ok,
{
}

/// A reply that differs from the request in any byte, or is shorter or
/// longer, fails verification.
pub proof fn lemma_altered_reply_fails(request: Seq<u8>, response: Seq<u8>)
    requires
        response != request,
    ensures
        echo_verdict(request, response) matches Err(ExchangeError::Verification(_)),
{
}

} // verus!
