//! The pure parts of the bindings to the native simulator.

use vstd::prelude::*;

verus! {

/// The version of the native simulator.
#[derive(Debug, PartialEq)]
pub struct VersionInfo {
    pub version: String,
    pub githash: String,
}

impl VersionInfo {
    /// The version followed by its commit hash in parentheses.
    pub fn to_string(&self) -> (r: String)
        ensures
            r@ == self.version@ + " ("@ + self.githash@ + ")"@,
    {
        let mut r = self.version.clone();
        r.append(" (");
        r.append(self.githash.as_str());
        r.append(")");
        r
    }
}

/// Which addresses of a memory region a multishot run reports.
#[derive(Debug, PartialEq)]
pub enum MultishotAddressRequest {
    /// Every address of the region.
    All,
    /// The addresses at these indices, in this order.
    Indices(Vec<u32>),
}

/// The end of the chunk of `width` items that starts at `start`, cut short
/// at `len`.
pub open spec fn chunk_end(start: int, width: int, len: int) -> int {
    if start + width <= len {
        start + width
    } else {
        len
    }
}

/// Cuts the measurements of all trials, laid end to end, into one sequence
/// per trial of `width` measurements each (the last one shorter if the
/// measurements run out).
pub fn split_trials(results: &Vec<i32>, width: usize) -> (r: Vec<Vec<i32>>)
    requires
        width > 0,
    ensures
        r@.len() == (results@.len() + width - 1) / width as int,
        forall|k: int|
            0 <= k < r@.len() ==> (#[trigger] r@[k])@ == results@.subrange(
                k * width,
                chunk_end(k * width, width as int, results@.len() as int),
            ),
{
    let n = results.len();
    let mut out: Vec<Vec<i32>> = Vec::new();
    let mut start: usize = 0;
    proof {
        assert(out@.len() * width == 0) by (nonlinear_arith)
            requires
                out@.len() == 0,
        ;
    }
    while start < n
        invariant
            n == results@.len(),
            width > 0,
            start <= n,
            start < n || out@.len() == 0,
            start == out@.len() * width,
            forall|k: int|
                0 <= k < out@.len() ==> (#[trigger] out@[k])@ == results@.subrange(
                    k * width,
                    chunk_end(k * width, width as int, n as int),
                ),
        decreases n - start,
    {
        let end: usize = if width <= n - start {
            start + width
        } else {
            n
        };
        let mut chunk: Vec<i32> = Vec::new();
        let mut i: usize = start;
        while i < end
            invariant
                start <= i <= end,
                end <= results@.len(),
                chunk@ == results@.subrange(start as int, i as int),
            decreases end - i,
        {
            chunk.push(results[i]);
            i = i + 1;
            proof {
                assert(chunk@ =~= results@.subrange(start as int, i as int));
            }
        }
        proof {
            assert(end == chunk_end(out@.len() * width, width as int, n as int));
            assert((out@.len() + 1) * width == out@.len() * width + width) by (nonlinear_arith);
        }
        out.push(chunk);
        if end == n {
            proof {
                let k = out@.len();
                assert((k - 1) * width < n && n <= k * width);
                assert((n + width - 1) / width as int == k) by (nonlinear_arith)
                    requires
                        (k - 1) * width < n,
                        n <= k * width,
                        width > 0,
                        k >= 1,
                ;
            }
            return out;
        }
        start = end;
    }
    proof {
        assert(n == 0);
        assert((n + width - 1) / width as int == 0) by (nonlinear_arith)
            requires
                n == 0,
                width > 0,
        ;
    }
    out
}

} // verus!
