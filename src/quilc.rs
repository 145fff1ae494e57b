//! The pure parts of the bindings to the native compiler: memory types,
//! results, and the grouping of randomized-benchmarking sequences.

use vstd::prelude::*;

verus! {

/// The type of a memory region declared by a program.
#[derive(Clone, Copy, Debug, PartialEq, Eq, Structural)]
pub enum MemoryType {
    Bit,
    Octet,
    Integer,
    Real,
}

/// The native library's code for a region of bits.
pub const TYPE_BIT: u32 = 0;

/// The native library's code for a region of octets.
pub const TYPE_OCTET: u32 = 1;

/// The native library's code for a region of integers.
pub const TYPE_INTEGER: u32 = 2;

/// The native library's code for a region of reals.
pub const TYPE_REAL: u32 = 3;

/// The memory type that a code names, or the code itself if it names none.
pub open spec fn memory_type_of(code: u32) -> Result<MemoryType, u32> {
    if code == TYPE_BIT {
        Ok(MemoryType::Bit)
    } else if code == TYPE_OCTET {
        Ok(MemoryType::Octet)
    } else if code == TYPE_INTEGER {
        Ok(MemoryType::Integer)
    } else if code == TYPE_REAL {
        Ok(MemoryType::Real)
    } else {
        Err(code)
    }
}

impl MemoryType {
    /// Reads the memory type that the native library reports. The code comes
    /// as a C `int` and is read as unsigned; an unknown code is returned as
    /// the error.
    pub fn from_code(value: i32) -> (r: Result<MemoryType, u32>)
        ensures
            r == memory_type_of(value as u32),
    {
        let code = value as u32;
        if code == TYPE_BIT {
            Ok(MemoryType::Bit)
        } else if code == TYPE_OCTET {
            Ok(MemoryType::Octet)
        } else if code == TYPE_INTEGER {
            Ok(MemoryType::Integer)
        } else if code == TYPE_REAL {
            Ok(MemoryType::Real)
        } else {
            Err(code)
        }
    }
}

/// The result of conjugating a Pauli term by a Clifford program.
#[derive(Debug, PartialEq, Eq)]
pub struct ConjugatePauliByCliffordResult {
    pub phase: i32,
    pub pauli: String,
}

/// The version of the native compiler.
#[derive(Debug, PartialEq)]
pub struct VersionInfo {
    pub version: String,
    pub githash: String,
}

impl VersionInfo {
    /// The version followed by its commit hash in parentheses.
    pub fn to_string(&self) -> (r: String)
        ensures
            r@ == self.version@ + " ("@ + self.githash@ + ")"@,
    {
        let mut r = self.version.clone();
        r.append(" (");
        r.append(self.githash.as_str());
        r.append(")");
        r
    }
}

/// How many sequences the native library returns for a randomized
/// benchmarking request: one per Clifford element of the sequence, and one
/// more for each interleaved program placed between two of them.
pub fn rb_sequence_count(depth: i32, interleaved: bool) -> (r: usize)
    requires
        depth >= 0,
        interleaved ==> depth >= 1,
    ensures
        r == if interleaved {
            2 * depth - 1
        } else {
            depth as int
        },
{
    if interleaved {
        (2 * (depth as i64) - 1) as usize
    } else {
        depth as usize
    }
}

/// The sum of the first `k` lengths.
pub open spec fn prefix_sum(lens: Seq<i32>, k: int) -> int
    decreases k,
{
    if k <= 0 {
        0
    } else {
        prefix_sum(lens, k - 1) + lens[k - 1]
    }
}

proof fn lemma_prefix_sum_grows(lens: Seq<i32>, j: int, k: int)
    requires
        0 <= j <= k <= lens.len(),
        forall|i: int| 0 <= i < lens.len() ==> #[trigger] lens[i] >= 0,
    ensures
        prefix_sum(lens, j) <= prefix_sum(lens, k),
    decreases k - j,
{
    if j < k {
        lemma_prefix_sum_grows(lens, j, k - 1);
    }
}

/// Cuts the concatenated sequences that the native library returns into one
/// sequence per length, in order.
pub fn group_rb_sequences(flat: &Vec<i32>, lens: &Vec<i32>) -> (r: Vec<Vec<i32>>)
    requires
        forall|i: int| 0 <= i < lens@.len() ==> #[trigger] lens@[i] >= 0,
        prefix_sum(lens@, lens@.len() as int) == flat@.len(),
    ensures
        r@.len() == lens@.len(),
        forall|k: int|
            0 <= k < lens@.len() ==> (#[trigger] r@[k])@ == flat@.subrange(
                prefix_sum(lens@, k),
                prefix_sum(lens@, k + 1),
            ),
{
    let mut out: Vec<Vec<i32>> = Vec::new();
    let mut pos: usize = 0;
    let mut k: usize = 0;
    let n = flat.len();
    while k < lens.len()
        invariant
            n == flat@.len(),
            k <= lens@.len(),
            forall|i: int| 0 <= i < lens@.len() ==> #[trigger] lens@[i] >= 0,
            prefix_sum(lens@, lens@.len() as int) == flat@.len(),
            pos == prefix_sum(lens@, k as int),
            out@.len() == k,
            forall|j: int|
                0 <= j < k ==> (#[trigger] out@[j])@ == flat@.subrange(
                    prefix_sum(lens@, j),
                    prefix_sum(lens@, j + 1),
                ),
        decreases lens@.len() - k,
    {
        proof {
            lemma_prefix_sum_grows(lens@, k as int + 1, lens@.len() as int);
            assert(prefix_sum(lens@, k as int + 1) == pos + lens@[k as int]);
        }
        let end: usize = pos + lens[k] as usize;
        let mut chunk: Vec<i32> = Vec::new();
        let mut i: usize = pos;
        while i < end
            invariant
                pos <= i <= end,
                end <= flat@.len(),
                chunk@ == flat@.subrange(pos as int, i as int),
            decreases end - i,
        {
            chunk.push(flat[i]);
            i = i + 1;
            proof {
                assert(chunk@ =~= flat@.subrange(pos as int, i as int));
            }
        }
        out.push(chunk);
        pos = end;
        k = k + 1;
    }
    out
}

} // verus!
