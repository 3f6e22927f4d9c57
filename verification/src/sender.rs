//! Transmission outcome rules: what counts as a delivered check-in.
//!
//! The HTTP exchange itself is I/O and happens outside this crate; the
//! verdict over its outcome is decided here. Success is strictly a
//! success-class HTTP status; any other status is an error carrying
//! the status code and response body, and any transport-level failure
//! is an error carrying its cause.

use vstd::prelude::*;

use crate::text::{dec_rep, from_chars, push_dec_u64, to_chars};

verus! {

/// Why a transmission failed.
#[derive(Clone, Debug)]
pub enum SendError {
    /// The endpoint answered, but with a non-success status; the body
    /// is carried along for the operator.
    Status { code: u16, body: String },
    /// The request never completed: DNS, connection, TLS or timeout
    /// failure, with the underlying cause.
    Transport { detail: String },
}

/// A success-class HTTP status.
pub open spec fn is_success_status(code: u16) -> bool {
    200 <= code && code < 300
}

/// The operator-facing description of a transmission failure; a status
/// failure always names the status code.
pub open spec fn send_error_text(e: SendError) -> Seq<char> {
    match e {
        SendError::Status { code, body } => "API returned "@ + dec_rep(code as int) + ": "@
            + body@,
        SendError::Transport { detail } => "HTTP send failed: "@ + detail@,
    }
}

impl SendError {
    /// Renders the failure for the operator.
    pub fn message(&self) -> (r: String)
        ensures
            r@ == send_error_text(*self),
    {
        let mut out: Vec<char> = Vec::new();
        match self {
            SendError::Status { code, body } => {
                let prefix = to_chars("API returned ");
                let mut k: usize = 0;
                while k < prefix.len()
                    invariant
                        k <= prefix.len(),
                        prefix@ == "API returned "@,
                        out@ == prefix@.take(k as int),
                    decreases prefix.len() - k,
                {
                    out.push(prefix[k]);
                    k = k + 1;
                    proof {
                        assert(out@ =~= prefix@.take(k as int));
                    }
                }
                proof {
                    assert(out@ =~= "API returned "@);
                }
                push_dec_u64(&mut out, *code as u64);
                out.push(':');
                out.push(' ');
                let bs = to_chars(body.as_str());
                let ghost mid = "API returned "@ + dec_rep(*code as int) + ": "@;
                proof {
                    reveal_strlit(": ");
                    assert(out@ =~= mid);
                }
                let mut j: usize = 0;
                while j < bs.len()
                    invariant
                        j <= bs.len(),
                        bs@ == body@,
                        out@ == mid + body@.take(j as int),
                    decreases bs.len() - j,
                {
                    out.push(bs[j]);
                    j = j + 1;
                    proof {
                        assert(out@ =~= mid + body@.take(j as int));
                    }
                }
                proof {
                    assert(out@ =~= send_error_text(*self));
                }
            },
            SendError::Transport { detail } => {
                let prefix = to_chars("HTTP send failed: ");
                let mut k: usize = 0;
                while k < prefix.len()
                    invariant
                        k <= prefix.len(),
                        prefix@ == "HTTP send failed: "@,
                        out@ == prefix@.take(k as int),
                    decreases prefix.len() - k,
                {
                    out.push(prefix[k]);
                    k = k + 1;
                    proof {
                        assert(out@ =~= prefix@.take(k as int));
                    }
                }
                let ds = to_chars(detail.as_str());
                let mut j: usize = 0;
                while j < ds.len()
                    invariant
                        j <= ds.len(),
                        ds@ == detail@,
                        prefix@ == "HTTP send failed: "@,
                        out@ == "HTTP send failed: "@ + detail@.take(j as int),
                    decreases ds.len() - j,
                {
                    out.push(ds[j]);
                    j = j + 1;
                    proof {
                        assert(out@ =~= "HTTP send failed: "@ + detail@.take(j as int));
                    }
                }
                proof {
                    assert(out@ =~= send_error_text(*self));
                }
            },
        }
        from_chars(&out)
    }
}

/// The verdict over one completed HTTP exchange: a success-class
/// status is a delivered check-in, anything else is a status error
/// carrying the code and body. The response body is otherwise ignored.
pub fn classify_response(code: u16, body: String) -> (r: Result<(), SendError>)
    ensures
        r is Ok <==> is_success_status(code),
        !is_success_status(code) ==> (r matches Err(SendError::Status { code: c, body: b })
            && c == code && b@ == body@),
{
    if 200 <= code && code < 300 {
        Ok(())
    } else {
        Err(SendError::Status { code, body })
    }
}

} // verus!
