//! The CSV layout of a phase-diagram sweep: one row per (eps, J) grid
//! point, with the autocorrelation of the stroboscopic magnetization at
//! lags 1..=max_tau.

use vstd::prelude::*;
use crate::text::{decimal, push_decimal};

verus! {

/// The autocorrelation column names `,c1,c2,...,cN`.
pub open spec fn lag_columns(n: nat) -> Seq<char>
    decreases n,
{
    if n == 0 {
        Seq::empty()
    } else {
        lag_columns((n - 1) as nat) + ",c"@ + decimal(n)
    }
}

/// The header line of a sweep CSV with lags 1..=max_tau, newline included.
pub open spec fn csv_header_chars(max_tau: nat) -> Seq<char> {
    "eps,j,w,kt,seed,classification,dominant_period,best_corr"@ + lag_columns(max_tau) + "\n"@
}

/// The header line of a sweep CSV.
pub fn csv_header(max_tau: usize) -> (r: String)
    ensures
        r@ == csv_header_chars(max_tau as nat),
{
    let mut out = String::new();
    out.append("eps,j,w,kt,seed,classification,dominant_period,best_corr");
    let ghost base = out@;
    let mut tau: usize = 0;
    while tau < max_tau
        invariant
            tau <= max_tau,
            base == "eps,j,w,kt,seed,classification,dominant_period,best_corr"@,
            out@ == base + lag_columns(tau as nat),
        decreases max_tau - tau,
    {
        tau = tau + 1;
        out.append(",c");
        push_decimal(&mut out, tau as u64);
        assert(out@ =~= base + lag_columns(tau as nat));
    }
    out.append("\n");
    out
}

} // verus!
