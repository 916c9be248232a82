//! What the run reports: the outcome of a request by its status, and a
//! count padded for display.

use vstd::prelude::*;
use crate::decimal::{decimal, push_u64};
use crate::text::string_of;

verus! {

/// A request that the service did not answer with a success.
#[derive(Debug, PartialEq, Eq)]
pub struct RequestError {
    /// The name of the query that was made.
    pub query: String,
    /// The status of the reply.
    pub status: u16,
}

/// Whether a status is a success: the statuses from 200 to 299.
pub open spec fn is_success(status: u16) -> bool {
    200 <= status < 300
}

/// `width - len` spaces, none where the text is wider.
pub open spec fn padding(len: nat, width: nat) -> Seq<char> {
    Seq::new(
        if len < width {
            (width - len) as nat
        } else {
            0
        },
        |i: int| ' ',
    )
}

/// The outcome of the request `func_name` that was answered with `status`:
/// a status from 200 to 299 is a success, any other an error that names the
/// query and the status.
pub fn simple_request(func_name: &str, status: u16) -> (r: Result<(), RequestError>)
    ensures
        is_success(status) ==> r is Ok,
        !is_success(status) ==> (r matches Err(e) && e.query@ == func_name@ && e.status == status),
{
    if 200 <= status && status < 300 {
        Ok(())
    } else {
        Err(RequestError { query: func_name.to_owned(), status })
    }
}

/// A count for display: its digits after as many spaces as make it
/// `whitespace` characters wide. Where there is no count there is no text.
pub fn formatter(funct_return: Option<u64>, whitespace: usize) -> (r: Option<String>)
    ensures
        match funct_return {
            Some(n) => r matches Some(s) && s@ == padding(
                decimal(n as nat).len(),
                whitespace as nat,
            ) + decimal(n as nat),
            None => r is None,
        },
{
    match funct_return {
        Some(n) => {
            let mut digits: Vec<char> = Vec::new();
            push_u64(&mut digits, n);
            assert(digits@ == decimal(n as nat));
            let mut out: Vec<char> = Vec::new();
            let mut i: usize = digits.len();
            while i < whitespace
                invariant
                    i <= whitespace || i == digits@.len(),
                    i >= digits@.len(),
                    out@.len() == i - digits@.len(),
                    forall|k: int| 0 <= k < out@.len() ==> out@[k] == ' ',
                decreases whitespace - i,
            {
                out.push(' ');
                i = i + 1;
            }
            assert(out@ == padding(digits@.len(), whitespace as nat));
            let ghost pad = out@;
            let mut j: usize = 0;
            while j < digits.len()
                invariant
                    j <= digits.len(),
                    out@ == pad + digits@.subrange(0, j as int),
                decreases digits.len() - j,
            {
                out.push(digits[j]);
                j = j + 1;
            }
            assert(digits@.subrange(0, digits.len() as int) == digits@);
            Some(string_of(&out))
        },
        None => None,
    }
}

} // verus!
