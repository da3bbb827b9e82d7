//! Plans: the transactions of an operation over all chips, written as the
//! concatenation of one part per chip, and what a count of accepted
//! transactions means for the part of each chip.

use vstd::prelude::*;
use crate::protocol::{frames, Error, Frame, Transaction};

verus! {

/// The parts `parts(0)`, ..., `parts(n - 1)` one after the other.
pub open spec fn concat_upto(parts: spec_fn(int) -> Seq<Frame>, n: nat) -> Seq<Frame>
    decreases n,
{
    if n == 0 {
        Seq::empty()
    } else {
        concat_upto(parts, (n - 1) as nat) + parts(n - 1)
    }
}

/// The outcome of an operation whose plan has `total` transactions when
/// the bus accepted the first `sent` of them.
pub open spec fn outcome(total: int, sent: int) -> Result<(), Error> {
    if sent >= total {
        Ok(())
    } else {
        Err(Error::TransportFailure)
    }
}

/// A plan grows with the number of parts.
pub proof fn lemma_concat_grows(parts: spec_fn(int) -> Seq<Frame>, m: nat, n: nat)
    requires
        m <= n,
    ensures
        concat_upto(parts, m).len() <= concat_upto(parts, n).len(),
    decreases n,
{
    if m < n {
        lemma_concat_grows(parts, m, (n - 1) as nat);
    }
}

/// Where every part has `k` transactions, `n` parts have `k * n`.
pub proof fn lemma_concat_len(parts: spec_fn(int) -> Seq<Frame>, n: nat, k: nat)
    requires
        forall|d: int| 0 <= d < n ==> (#[trigger] parts(d)).len() == k,
    ensures
        concat_upto(parts, n).len() == k * n,
    decreases n,
{
    if n > 0 {
        lemma_concat_len(parts, (n - 1) as nat, k);
        assert(k * (n - 1) + k == k * n) by (nonlinear_arith);
    } else {
        assert(k * 0 == 0) by (nonlinear_arith);
    }
}

/// Where every part is empty, so is the plan.
pub proof fn lemma_concat_empty(parts: spec_fn(int) -> Seq<Frame>, n: nat)
    requires
        forall|d: int| 0 <= d < n ==> (#[trigger] parts(d)).len() == 0,
    ensures
        concat_upto(parts, n).len() == 0,
    decreases n,
{
    if n > 0 {
        lemma_concat_empty(parts, (n - 1) as nat);
    }
}

/// Every transaction of a plan stands in the part of some chip: the part
/// `d` begins where the parts before it end.
pub proof fn lemma_concat_member(parts: spec_fn(int) -> Seq<Frame>, n: nat, j: int) -> (d: int)
    requires
        0 <= j < concat_upto(parts, n).len(),
    ensures
        0 <= d < n,
        concat_upto(parts, d as nat).len() <= j < concat_upto(parts, (d + 1) as nat).len(),
        concat_upto(parts, n)[j] == parts(d)[j - concat_upto(parts, d as nat).len()],
    decreases n,
{
    let before = concat_upto(parts, (n - 1) as nat);
    if j < before.len() {
        lemma_concat_member(parts, (n - 1) as nat, j)
    } else {
        n - 1
    }
}

/// Adds one transaction at the end of a plan.
pub fn push_frame(out: &mut Vec<Transaction>, t: Transaction)
    ensures
        frames(final(out)@) == frames(old(out)@).push(t@),
{
    out.push(t);
    assert(frames(out@) =~= frames(old(out)@).push(t@));
}

/// Adds the transactions of `more` at the end of a plan.
pub fn append_frames(out: &mut Vec<Transaction>, more: Vec<Transaction>)
    ensures
        frames(final(out)@) == frames(old(out)@) + frames(more@),
{
    let mut more = more;
    let ghost added = more@;
    out.append(&mut more);
    assert(frames(out@) =~= frames(old(out)@) + frames(added));
}

} // verus!
