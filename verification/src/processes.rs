//! Process rows and the fixed column set they are sorted by.
//!
//! A row's CPU percentage is carried as the IEEE 754 bit pattern of the
//! sampled `f32` (as `f32::to_bits` gives it), so that the column order —
//! numeric, with every NaN comparing equal to everything — is plain integer
//! logic that can be reasoned about directly.

use vstd::prelude::*;
use vstd::string::StrSliceExecFns;

verus! {

/// How many sortable columns the table has: pid, name, cpu, memory.
pub const COLUMN_COUNT: usize = 4;

/// One process row: identifier, name, CPU percentage (as `f32` bits),
/// and memory use in bytes.
pub struct ProcessInfo {
    pub pid: i32,
    pub name: String,
    pub cpu_bits: u32,
    pub ram_usage: u64,
}

/// One sortable column: stable identifier and display title. The order the
/// column imposes on rows is given by [`col_cmp`] at the column's index.
pub struct Column {
    pub id: &'static str,
    pub title: &'static str,
}

/// The fixed column at index `i`.
pub fn column_at(i: usize) -> (c: Column)
    requires
        i < COLUMN_COUNT,
    ensures
        i == 0 ==> c.id@ == "pid"@ && c.title@ == "PID"@,
        i == 1 ==> c.id@ == "name"@ && c.title@ == "NAME"@,
        i == 2 ==> c.id@ == "cpu"@ && c.title@ == "CPU%"@,
        i == 3 ==> c.id@ == "mem"@ && c.title@ == "MEM"@,
{
    if i == 0 {
        Column { id: "pid", title: "PID" }
    } else if i == 1 {
        Column { id: "name", title: "NAME" }
    } else if i == 2 {
        Column { id: "cpu", title: "CPU%" }
    } else {
        Column { id: "mem", title: "MEM" }
    }
}

/// Sign of `a - b`: the usual three-way comparison of two integers.
pub open spec fn cmp_of(a: int, b: int) -> int {
    if a < b {
        -1
    } else if a > b {
        1
    } else {
        0
    }
}

/// Lexicographic three-way comparison of two character sequences,
/// by code point.
pub open spec fn lex_cmp(a: Seq<char>, b: Seq<char>) -> int
    decreases a.len(),
{
    if a.len() == 0 && b.len() == 0 {
        0
    } else if a.len() == 0 {
        -1
    } else if b.len() == 0 {
        1
    } else if (a[0] as u32) < (b[0] as u32) {
        -1
    } else if (a[0] as u32) > (b[0] as u32) {
        1
    } else {
        lex_cmp(a.drop_first(), b.drop_first())
    }
}

/// Does this `f32` bit pattern denote a NaN? (Magnitude bits strictly above
/// the infinity pattern.)
pub open spec fn f32_bits_is_nan(bits: u32) -> bool {
    (bits & 0x7fff_ffff) > 0x7f80_0000
}

/// Signed-magnitude reading of an `f32` bit pattern. For non-NaN patterns
/// this integer orders exactly as the encoded numbers do, and the two zeros
/// coincide.
pub open spec fn f32_bits_key(bits: u32) -> int {
    if bits >= 0x8000_0000 {
        -((bits & 0x7fff_ffff) as int)
    } else {
        (bits & 0x7fff_ffff) as int
    }
}

/// Three-way comparison of two CPU percentages given as `f32` bit patterns:
/// any NaN compares equal to everything, otherwise numeric order.
pub open spec fn cpu_cmp(a: u32, b: u32) -> int {
    if f32_bits_is_nan(a) || f32_bits_is_nan(b) {
        0
    } else {
        cmp_of(f32_bits_key(a), f32_bits_key(b))
    }
}

/// Three-way comparison of two rows in the column at index `col`:
/// pid and memory by integer order, name lexicographically, cpu numerically
/// with NaN equal to everything.
pub open spec fn col_cmp(col: int, a: ProcessInfo, b: ProcessInfo) -> int {
    if col == 0 {
        cmp_of(a.pid as int, b.pid as int)
    } else if col == 1 {
        lex_cmp(a.name@, b.name@)
    } else if col == 2 {
        cpu_cmp(a.cpu_bits, b.cpu_bits)
    } else {
        cmp_of(a.ram_usage as int, b.ram_usage as int)
    }
}

/// Column comparison with the sort direction applied: descending order
/// flips the sign.
pub open spec fn eff_cmp(col: int, desc: bool, a: ProcessInfo, b: ProcessInfo) -> int {
    if desc {
        -col_cmp(col, a, b)
    } else {
        col_cmp(col, a, b)
    }
}

/// `a` sorts at or before `b` under the given column and direction.
pub open spec fn key_le(col: int, desc: bool, a: ProcessInfo, b: ProcessInfo) -> bool {
    eff_cmp(col, desc, a, b) <= 0
}

proof fn lemma_lex_cmp_antisym(a: Seq<char>, b: Seq<char>)
    ensures
        lex_cmp(b, a) == -lex_cmp(a, b),
    decreases a.len(),
{
    if a.len() != 0 && b.len() != 0 && (a[0] as u32) == (b[0] as u32) {
        lemma_lex_cmp_antisym(a.drop_first(), b.drop_first());
    }
}

/// Swapping the two rows flips the sign of the comparison, in every column.
pub proof fn lemma_col_cmp_antisym(col: int, a: ProcessInfo, b: ProcessInfo)
    ensures
        col_cmp(col, b, a) == -col_cmp(col, a, b),
{
    if col == 1 {
        lemma_lex_cmp_antisym(a.name@, b.name@);
    }
}

/// The order on rows is total: two rows always compare at-or-before in one
/// direction or the other. Every NaN CPU percentage compares equal to
/// everything, so no pair of rows is left unordered.
pub proof fn lemma_key_le_total(col: int, desc: bool, a: ProcessInfo, b: ProcessInfo)
    ensures
        key_le(col, desc, a, b) || key_le(col, desc, b, a),
{
    lemma_col_cmp_antisym(col, a, b);
}

/// Three-way comparison of two rows in the column at index `col`, as a sign;
/// the executable form of [`col_cmp`].
pub fn compare_in_column(col: usize, a: &ProcessInfo, b: &ProcessInfo) -> (r: i8)
    requires
        col < COLUMN_COUNT,
    ensures
        r as int == col_cmp(col as int, *a, *b),
        -1 <= r as int <= 1,
{
    if col == 0 {
        if a.pid < b.pid {
            -1
        } else if a.pid > b.pid {
            1
        } else {
            0
        }
    } else if col == 1 {
        compare_names(a.name.as_str(), b.name.as_str())
    } else if col == 2 {
        compare_cpu(a.cpu_bits, b.cpu_bits)
    } else {
        if a.ram_usage < b.ram_usage {
            -1
        } else if a.ram_usage > b.ram_usage {
            1
        } else {
            0
        }
    }
}

/// Character-by-character comparison of two names; the executable form of
/// [`lex_cmp`].
fn compare_names(a: &str, b: &str) -> (r: i8)
    ensures
        r as int == lex_cmp(a@, b@),
        -1 <= r as int <= 1,
{
    let alen = a.unicode_len();
    let blen = b.unicode_len();
    let mut i: usize = 0;
    proof {
        assert(a@.skip(0) =~= a@);
        assert(b@.skip(0) =~= b@);
    }
    while i < alen && i < blen
        invariant
            i <= alen,
            i <= blen,
            alen == a@.len(),
            blen == b@.len(),
            lex_cmp(a@, b@) == lex_cmp(a@.skip(i as int), b@.skip(i as int)),
        decreases alen - i,
    {
        let ca = a.get_char(i);
        let cb = b.get_char(i);
        if (ca as u32) < (cb as u32) {
            return -1;
        }
        if (ca as u32) > (cb as u32) {
            return 1;
        }
        proof {
            assert(a@.skip(i as int).drop_first() =~= a@.skip(i + 1));
            assert(b@.skip(i as int).drop_first() =~= b@.skip(i + 1));
        }
        i = i + 1;
    }
    if alen == blen {
        0
    } else if alen < blen {
        -1
    } else {
        1
    }
}

/// Collects one row per running process from a refreshed system handle.
///
/// Relies on `sysinfo::System::processes` and the per-process accessors
/// `Pid::as_u32`, `Process::name`, `Process::cpu_usage` and
/// `Process::memory`: one entry per process known to the handle at its last
/// refresh. What those are depends on the machine at the moment of
/// sampling, so nothing is promised of the rows. A process name that is not
/// valid UTF-8 is decoded lossily rather than refused.
#[verifier::external_body]
pub fn collect_processes(sys: &sysinfo::System) -> Vec<ProcessInfo> {
    sys.processes()
        .iter()
        .map(|(pid, process)| ProcessInfo {
            pid: pid.as_u32() as i32,
            name: process.name().to_string_lossy().into_owned(),
            cpu_bits: process.cpu_usage().to_bits(),
            ram_usage: process.memory(),
        })
        .collect()
}

/// Comparison of two CPU bit patterns; the executable form of [`cpu_cmp`].
fn compare_cpu(a: u32, b: u32) -> (r: i8)
    ensures
        r as int == cpu_cmp(a, b),
        -1 <= r as int <= 1,
{
    if (a & 0x7fff_ffff) > 0x7f80_0000 || (b & 0x7fff_ffff) > 0x7f80_0000 {
        return 0;
    }
    let ka: i64 = if a >= 0x8000_0000 {
        -((a & 0x7fff_ffff) as i64)
    } else {
        (a & 0x7fff_ffff) as i64
    };
    let kb: i64 = if b >= 0x8000_0000 {
        -((b & 0x7fff_ffff) as i64)
    } else {
        (b & 0x7fff_ffff) as i64
    };
    if ka < kb {
        -1
    } else if ka > kb {
        1
    } else {
        0
    }
}

} // verus!
