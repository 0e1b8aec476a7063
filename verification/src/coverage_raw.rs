//! Parser of LLVM's raw instrumentation profiles (`.profraw`, format
//! version 10, 64-bit little-endian).
//!
//! Layout:
//!
//! ```text
//! [RawHeader: 16 × u64 = 128 bytes]
//! [BinaryIds: variable, size = header.BinaryIdsSize]
//! [DataRecords: header.NumData × ProfileData (64 bytes each)]
//! [Counters: header.NumCounters × u64]
//! [Names: header.NamesSize bytes]
//! ```

use vstd::prelude::*;
use crate::model::text::{dec, hex_padded, push_dec, push_hex_padded, push_str, string_from_chars};

verus! {

/// LLVM raw profile magic for 64-bit platforms.
pub const RAW_MAGIC: u64 = 0xff6c70726f667281;

/// Profile format version expected.
pub const EXPECTED_VERSION: u64 = 10;

/// Size of the header.
pub const HEADER_SIZE: usize = 128;

/// Size of one per-function data record.
pub const DATA_RECORD_SIZE: usize = 64;

// ---------------------------------------------------------------------------
// Little-endian integers
// ---------------------------------------------------------------------------

/// The little-endian value of `bs`.
pub open spec fn le_value(bs: Seq<u8>) -> nat
    decreases bs.len(),
{
    if bs.len() == 0 {
        0
    } else {
        (bs[0] + 256 * le_value(bs.drop_first())) as nat
    }
}

/// The little-endian integer of `width` bytes at `off`.
pub open spec fn le_at(d: Seq<u8>, off: int, width: int) -> nat {
    le_value(d.subrange(off, off + width))
}

/// `256^k`.
pub open spec fn pow256(k: nat) -> nat
    decreases k,
{
    if k == 0 { 1 } else { 256 * pow256((k - 1) as nat) }
}

proof fn lemma_le_bound(bs: Seq<u8>)
    ensures
        le_value(bs) < pow256(bs.len()),
    decreases bs.len(),
{
    if bs.len() > 0 {
        lemma_le_bound(bs.drop_first());
        let r = le_value(bs.drop_first());
        let p = pow256(bs.drop_first().len());
        assert(bs[0] + 256 * r < 256 * p) by (nonlinear_arith)
            requires
                r < p,
                bs[0] < 256,
        ;
    }
}

/// Reads the little-endian integer of `width` bytes at `off`.
pub fn read_le(d: &[u8], off: usize, width: usize) -> (v: u64)
    requires
        off + width <= d@.len(),
        width <= 8,
    ensures
        v == le_at(d@, off as int, width as int),
{
    let n = d.len();
    let mut v: u64 = 0;
    let mut k: usize = width;
    proof {
        assert(d@.subrange(off + width, off + width) =~= Seq::<u8>::empty());
    }
    while k > 0
        invariant
            k <= width <= 8,
            off + width <= d@.len(),
            n == d@.len(),
            v == le_value(d@.subrange(off + k, off + width)),
        decreases k,
    {
        k = k - 1;
        let ghost rest = d@.subrange(off + k + 1, off + width);
        let ghost cur = d@.subrange(off + k, off + width);
        proof {
            assert(cur.drop_first() =~= rest);
            assert(cur[0] == d@[off + k]);
            lemma_le_bound(rest);
            assert(rest.len() == width - k - 1);
            reveal_with_fuel(pow256, 8);
            lemma_pow256_mono(rest.len(), 7);
            assert(pow256(7) == 72057594037927936);
        }
        let b = d[off + k];
        v = v * 256 + b as u64;
    }
    v
}

proof fn lemma_pow256_mono(a: nat, b: nat)
    requires
        a <= b,
    ensures
        pow256(a) <= pow256(b),
    decreases b,
{
    if a < b {
        lemma_pow256_mono(a, (b - 1) as nat);
    }
}

// ---------------------------------------------------------------------------
// Data records
// ---------------------------------------------------------------------------

/// Per-function data record (on-disk layout, 64 bytes).
pub struct ProfileData {
    pub name_ref: u64,
    pub func_hash: u64,
    pub counter_ptr: u64,
    pub bitmap_ptr: u64,
    pub function_ptr: u64,
    pub values_ptr: u64,
    pub num_counters: u32,
    pub num_value_sites: [u16; 3],
    pub num_bitmap_bytes: u32,
}

/// Read a single `ProfileData` record from the start of `buf`.
pub fn read_data_record(buf: &[u8]) -> (r: ProfileData)
    requires
        buf@.len() >= 64,
    ensures
        r.name_ref == le_at(buf@, 0, 8),
        r.func_hash == le_at(buf@, 8, 8),
        r.counter_ptr == le_at(buf@, 16, 8),
        r.bitmap_ptr == le_at(buf@, 24, 8),
        r.function_ptr == le_at(buf@, 32, 8),
        r.values_ptr == le_at(buf@, 40, 8),
        r.num_counters == le_at(buf@, 48, 4),
        r.num_value_sites@ == seq![le_at(buf@, 52, 2) as u16, le_at(buf@, 54, 2) as u16, le_at(buf@, 56, 2) as u16],
        r.num_bitmap_bytes == le_at(buf@, 60, 4),
{
    proof {
        lemma_le_bound(buf@.subrange(48, 52));
        lemma_le_bound(buf@.subrange(60, 64));
        lemma_le_bound(buf@.subrange(52, 54));
        lemma_le_bound(buf@.subrange(54, 56));
        lemma_le_bound(buf@.subrange(56, 58));
        reveal_with_fuel(pow256, 5);
    }
    let s0 = read_le(buf, 52, 2) as u16;
    let s1 = read_le(buf, 54, 2) as u16;
    let s2 = read_le(buf, 56, 2) as u16;
    let r = ProfileData {
        name_ref: read_le(buf, 0, 8),
        func_hash: read_le(buf, 8, 8),
        counter_ptr: read_le(buf, 16, 8),
        bitmap_ptr: read_le(buf, 24, 8),
        function_ptr: read_le(buf, 32, 8),
        values_ptr: read_le(buf, 40, 8),
        num_counters: read_le(buf, 48, 4) as u32,
        num_value_sites: [s0, s1, s2],
        num_bitmap_bytes: read_le(buf, 60, 4) as u32,
    };
    proof {
        assert(r.num_value_sites@ =~= seq![s0, s1, s2]);
    }
    r
}


// ---------------------------------------------------------------------------
// The profile
// ---------------------------------------------------------------------------

/// Counter values for one instrumented function.
pub struct FunctionCounters {
    /// Number of counters for this function.
    pub num_counters: u32,
    /// The counter values.
    pub counters: Vec<u64>,
    /// How many of these counters are non-zero (= covered).
    pub covered: u32,
}

/// Parsed coverage information from a single `.profraw` file.
pub struct RawProfile {
    pub num_data: u64,
    pub num_counters: u64,
    pub functions: Vec<FunctionCounters>,
    pub names_size: u64,
}

/// The model of one function's counters.
pub struct FunctionView {
    pub num_counters: nat,
    pub counters: Seq<nat>,
    pub covered: nat,
}

/// The model of a parsed profile.
pub struct ProfileView {
    pub num_data: nat,
    pub num_counters: nat,
    pub functions: Seq<FunctionView>,
    pub names_size: nat,
}

/// The `k`-th 64-bit word of the header.
pub open spec fn header_word(d: Seq<u8>, k: int) -> nat {
    le_at(d, 8 * k, 8)
}

/// Sum of a sequence.
pub open spec fn sum_nat(s: Seq<nat>) -> nat
    decreases s.len(),
{
    if s.len() == 0 { 0 } else { sum_nat(s.drop_last()) + s.last() }
}

/// How many entries are non-zero.
pub open spec fn count_nonzero(s: Seq<nat>) -> nat
    decreases s.len(),
{
    if s.len() == 0 {
        0
    } else {
        count_nonzero(s.drop_last()) + if s.last() > 0 { 1nat } else { 0nat }
    }
}

/// The counter counts of the `n` data records starting at `base`.
pub open spec fn record_counts(d: Seq<u8>, base: int, n: nat) -> Seq<nat> {
    Seq::new(n, |i: int| le_at(d, base + 64 * i + 48, 4))
}

/// Function `i`: its counters are the next `counts[i]` words of the counter
/// section, after those of the functions before it.
pub open spec fn function_view(d: Seq<u8>, cbase: int, counts: Seq<nat>, i: int) -> FunctionView {
    let n = counts[i];
    let start = sum_nat(counts.take(i));
    let cs = Seq::new(n, |j: int| le_at(d, cbase + 8 * (start + j), 8));
    FunctionView { num_counters: n, counters: cs, covered: count_nonzero(cs) }
}

/// Offset of the data records.
pub open spec fn records_offset(d: Seq<u8>) -> nat {
    128 + header_word(d, 2)
}

/// Offset of the counters.
pub open spec fn counters_offset(d: Seq<u8>) -> nat {
    records_offset(d) + 64 * header_word(d, 3)
}

/// The header is well-formed: long enough, right magic, right version.
pub open spec fn header_ok(d: Seq<u8>) -> bool {
    d.len() >= 128 && header_word(d, 0) == RAW_MAGIC && header_word(d, 1) % 0x1_0000_0000 == EXPECTED_VERSION
}

/// The sections that the header announces fit in the file.
pub open spec fn sections_fit(d: Seq<u8>) -> bool {
    counters_offset(d) <= d.len() && counters_offset(d) + 8 * header_word(d, 5) <= d.len()
}

/// What parsing `d` yields: the profile, or the error message.
pub open spec fn parse_profile(d: Seq<u8>) -> Result<ProfileView, Seq<char>> {
    let len = d.len();
    if len < 128 {
        Err("file too small: "@ + dec(len) + " bytes (need at least 128)"@)
    } else if header_word(d, 0) != RAW_MAGIC {
        Err("bad magic: 0x"@ + hex_padded(header_word(d, 0), 16) + " (expected 0x"@ + hex_padded(RAW_MAGIC as nat, 16)
            + ")"@)
    } else if header_word(d, 1) % 0x1_0000_0000 != EXPECTED_VERSION {
        Err("unsupported profile version: "@ + dec(header_word(d, 1) % 0x1_0000_0000) + " (expected 10)"@)
    } else if counters_offset(d) > len {
        Err("data records"@ + " extend past end of file (offset="@ + dec(records_offset(d)) + ", need "@ + dec(
            64 * header_word(d, 3),
        ) + ", file="@ + dec(len) + ")"@)
    } else if counters_offset(d) + 8 * header_word(d, 5) > len {
        Err("counters"@ + " extend past end of file (offset="@ + dec(counters_offset(d)) + ", need "@ + dec(
            8 * header_word(d, 5),
        ) + ", file="@ + dec(len) + ")"@)
    } else {
        let nd = header_word(d, 3);
        let counts = record_counts(d, records_offset(d) as int, nd);
        Ok(
            ProfileView {
                num_data: nd,
                num_counters: header_word(d, 5),
                functions: Seq::new(nd, |i: int| function_view(d, counters_offset(d) as int, counts, i)),
                names_size: header_word(d, 9),
            },
        )
    }
}

/// The inputs on which parsing runs to its end without an arithmetic
/// overflow or an out-of-bounds read: the section offsets fit a `usize`,
/// and the counters the records claim lie within the file.
pub open spec fn parse_defined(d: Seq<u8>) -> bool {
    header_ok(d) ==> {
        &&& records_offset(d) <= usize::MAX
        &&& counters_offset(d) <= usize::MAX
        &&& counters_offset(d) <= d.len() ==> {
            &&& counters_offset(d) + 8 * header_word(d, 5) <= usize::MAX
            &&& sections_fit(d) ==> counters_offset(d) + 8 * sum_nat(
                record_counts(d, records_offset(d) as int, header_word(d, 3)),
            ) <= d.len()
        }
    }
}

/// Whether an exec function record matches its model.
pub open spec fn function_matches(f: FunctionCounters, v: FunctionView) -> bool {
    &&& f.num_counters == v.num_counters
    &&& f.counters@.len() == v.counters.len()
    &&& forall|j: int| 0 <= j < f.counters@.len() ==> f.counters@[j] == v.counters[j]
    &&& f.covered == v.covered
}

/// Whether a parsed profile matches its model.
pub open spec fn profile_matches(p: RawProfile, v: ProfileView) -> bool {
    &&& p.num_data == v.num_data
    &&& p.num_counters == v.num_counters
    &&& p.names_size == v.names_size
    &&& p.functions@.len() == v.functions.len()
    &&& forall|i: int| 0 <= i < p.functions@.len() ==> function_matches(#[trigger] p.functions@[i], v.functions[i])
}

proof fn lemma_sum_prefix(s: Seq<nat>, i: int)
    requires
        0 <= i < s.len(),
    ensures
        sum_nat(s.take(i + 1)) == sum_nat(s.take(i)) + s[i],
        sum_nat(s.take(i + 1)) <= sum_nat(s),
    decreases s.len(),
{
    assert(s.take(i + 1).drop_last() =~= s.take(i));
    lemma_sum_take_le(s, i + 1);
}

proof fn lemma_sum_take_le(s: Seq<nat>, k: int)
    requires
        0 <= k <= s.len(),
    ensures
        sum_nat(s.take(k)) <= sum_nat(s),
    decreases s.len(),
{
    if k < s.len() {
        assert(s.drop_last().take(k) =~= s.take(k));
        lemma_sum_take_le(s.drop_last(), k);
    } else {
        assert(s.take(k) =~= s);
    }
}

/// Reads the counter count of each of the `n` records at `base`.
fn read_counts(data: &[u8], base: usize, n: usize) -> (r: Vec<u32>)
    requires
        base + 64 * n <= data@.len(),
    ensures
        r@.len() == n,
        forall|i: int| 0 <= i < n ==> r@[i] == record_counts(data@, base as int, n as nat)[i],
{
    let dl = data.len();
    let mut r: Vec<u32> = Vec::new();
    let mut i: usize = 0;
    while i < n
        invariant
            i <= n,
            dl == data@.len(),
            base + 64 * n <= data@.len(),
            r@.len() == i,
            forall|k: int| 0 <= k < i ==> r@[k] == record_counts(data@, base as int, n as nat)[k],
        decreases n - i,
    {
        proof {
            assert(base + i * 64 + 64 <= data@.len()) by (nonlinear_arith)
                requires
                    i < n,
                    base + 64 * n <= data@.len(),
            ;
        }
        let off = base + i * DATA_RECORD_SIZE;
        proof {
            lemma_le_bound(data@.subrange(off + 48, off + 52));
            reveal_with_fuel(pow256, 5);
        }
        let c = read_le(data, off + 48, 4) as u32;
        r.push(c);
        proof {
            assert(64 * i == i * 64) by (nonlinear_arith);
        }
        i = i + 1;
    }
    r
}

/// Reads `n` counters starting at counter index `start` of the section at
/// `base`, and counts the non-zero ones.
fn read_function(data: &[u8], base: usize, start: usize, n: u32) -> (r: FunctionCounters)
    requires
        base + 8 * (start + n) <= data@.len(),
    ensures
        r.num_counters == n,
        r.counters@.len() == n,
        forall|j: int| 0 <= j < n ==> r.counters@[j] == le_at(data@, base + 8 * (start + j), 8),
        r.covered == count_nonzero(Seq::new(n as nat, |j: int| le_at(data@, base + 8 * (start + j), 8))),
{
    let ghost want = Seq::new(n as nat, |j: int| le_at(data@, base + 8 * (start + j), 8));
    let dl = data.len();
    let mut vals: Vec<u64> = Vec::new();
    let mut covered: u32 = 0;
    let mut j: u32 = 0;
    while j < n
        invariant
            j <= n,
            want == Seq::new(n as nat, |j: int| le_at(data@, base + 8 * (start + j), 8)),
            dl == data@.len(),
            base + 8 * (start + n) <= data@.len(),
            vals@.len() == j,
            forall|k: int| 0 <= k < j ==> vals@[k] == want[k],
            covered == count_nonzero(want.take(j as int)),
            covered <= j,
        decreases n - j,
    {
        proof {
            assert(base + (start + j) * 8 + 8 <= data@.len()) by (nonlinear_arith)
                requires
                    j < n,
                    base + 8 * (start + n) <= data@.len(),
            ;
            assert(8 * (start + j) == (start + j) * 8) by (nonlinear_arith);
        }
        let off = base + (start + j as usize) * 8;
        proof {
            assert(want.take(j + 1).drop_last() =~= want.take(j as int));
        }
        let v = read_le(data, off, 8);
        if v > 0 {
            covered = covered + 1;
        }
        vals.push(v);
        j = j + 1;
    }
    proof {
        assert(want.take(n as int) =~= want);
        assert forall|j: int| 0 <= j < n implies vals@[j] == le_at(data@, base + 8 * (start + j), 8) by {
            assert(vals@[j] == want[j]);
        }
    }
    FunctionCounters { num_counters: n, counters: vals, covered }
}

fn extent_error(what: &str, offset: usize, need: usize, file: usize) -> (r: String)
    ensures
        r@ == what@ + " extend past end of file (offset="@ + dec(offset as nat) + ", need "@ + dec(need as nat)
            + ", file="@ + dec(file as nat) + ")"@,
{
    let mut out: Vec<char> = Vec::new();
    push_str(&mut out, what);
    push_str(&mut out, " extend past end of file (offset=");
    push_dec(&mut out, offset as u128);
    push_str(&mut out, ", need ");
    push_dec(&mut out, need as u128);
    push_str(&mut out, ", file=");
    push_dec(&mut out, file as u128);
    push_str(&mut out, ")");
    proof {
        assert(out@ =~= what@ + " extend past end of file (offset="@ + dec(offset as nat) + ", need "@ + dec(
            need as nat,
        ) + ", file="@ + dec(file as nat) + ")"@);
    }
    string_from_chars(&out)
}

/// Parse a `.profraw` buffer into structured coverage data.
pub fn parse_raw_profile(data: &[u8]) -> (r: Result<RawProfile, String>)
    requires
        parse_defined(data@),
    ensures
        match parse_profile(data@) {
            Ok(v) => r is Ok && profile_matches(r->Ok_0, v),
            Err(m) => r is Err && r->Err_0@ == m,
        },
{
    let len = data.len();
    if len < HEADER_SIZE {
        let mut out: Vec<char> = Vec::new();
        push_str(&mut out, "file too small: ");
        push_dec(&mut out, len as u128);
        push_str(&mut out, " bytes (need at least 128)");
        proof {
            assert(out@ =~= "file too small: "@ + dec(len as nat) + " bytes (need at least 128)"@);
        }
        return Err(string_from_chars(&out));
    }
    let magic = read_le(data, 0, 8);
    if magic != RAW_MAGIC {
        let mut out: Vec<char> = Vec::new();
        push_str(&mut out, "bad magic: 0x");
        push_hex_padded(&mut out, magic, 16);
        push_str(&mut out, " (expected 0x");
        push_hex_padded(&mut out, RAW_MAGIC, 16);
        push_str(&mut out, ")");
        proof {
            assert(out@ =~= "bad magic: 0x"@ + hex_padded(magic as nat, 16) + " (expected 0x"@ + hex_padded(
                RAW_MAGIC as nat,
                16,
            ) + ")"@);
        }
        return Err(string_from_chars(&out));
    }
    let raw_version = read_le(data, 8, 8);
    let version = raw_version & 0xffffffff;
    proof {
        assert(raw_version & 0xffffffff == raw_version % 0x1_0000_0000) by (bit_vector);
    }
    if version != EXPECTED_VERSION {
        let mut out: Vec<char> = Vec::new();
        push_str(&mut out, "unsupported profile version: ");
        push_dec(&mut out, version as u128);
        push_str(&mut out, " (expected 10)");
        proof {
            assert(out@ =~= "unsupported profile version: "@ + dec(version as nat) + " (expected 10)"@);
        }
        return Err(string_from_chars(&out));
    }
    let bin_ids_size = read_le(data, 16, 8);
    let num_data_raw = read_le(data, 24, 8);
    let num_counters_raw = read_le(data, 40, 8);
    let names_size = read_le(data, 72, 8);
    proof {
        assert(header_ok(data@));
        assert(records_offset(data@) == 128 + bin_ids_size);
        assert(counters_offset(data@) == 128 + bin_ids_size + 64 * num_data_raw);
    }
    let offset: usize = HEADER_SIZE + bin_ids_size as usize;
    let num_data = num_data_raw as usize;
    let data_size = num_data * DATA_RECORD_SIZE;
    if offset + data_size > len {
        return Err(extent_error("data records", offset, data_size, len));
    }
    let counts = read_counts(data, offset, num_data);
    let counters_base = offset + data_size;
    let num_counters = num_counters_raw as usize;
    let counters_size = num_counters * 8;
    if counters_base + counters_size > len {
        return Err(extent_error("counters", counters_base, counters_size, len));
    }
    let ghost cs = record_counts(data@, offset as int, num_data as nat);
    proof {
        assert(sections_fit(data@));
        assert(counts@.len() == cs.len());
    }
    let mut functions: Vec<FunctionCounters> = Vec::new();
    let mut ci: usize = 0;
    let mut i: usize = 0;
    while i < num_data
        invariant
            i <= num_data,
            num_data == cs.len(),
            counts@.len() == num_data,
            forall|k: int| 0 <= k < num_data ==> counts@[k] == cs[k],
            ci == sum_nat(cs.take(i as int)),
            counters_base + 8 * sum_nat(cs) <= data@.len(),
            len == data@.len(),
            counters_base == counters_offset(data@),
            functions@.len() == i,
            forall|k: int| 0 <= k < i ==> function_matches(
                #[trigger] functions@[k],
                function_view(data@, counters_base as int, cs, k),
            ),
        decreases num_data - i,
    {
        proof {
            lemma_sum_prefix(cs, i as int);
        }
        let n = counts[i];
        proof {
            assert(n == cs[i as int]);
            assert(ci + n <= sum_nat(cs));
        }
        let f = read_function(data, counters_base, ci, n);
        proof {
            let fv = function_view(data@, counters_base as int, cs, i as int);
            assert(f.counters@.len() == fv.counters.len());
            assert(Seq::new(n as nat, |j: int| le_at(data@, counters_base + 8 * (ci + j), 8)) =~= fv.counters);
        }
        functions.push(f);
        ci = ci + n as usize;
        i = i + 1;
    }
    let r = RawProfile {
        num_data: num_data_raw,
        num_counters: num_counters_raw,
        functions,
        names_size,
    };
    proof {
        let v = parse_profile(data@)->Ok_0;
        assert(r.functions@.len() == v.functions.len());
        assert(profile_matches(r, v));
    }
    Ok(r)
}


/// Whether parsing `data` is defined (see [`parse_defined`]); callers test
/// this before [`parse_raw_profile`].
pub fn parse_is_defined(data: &[u8]) -> (r: bool)
    ensures
        r == parse_defined(data@),
{
    let len = data.len();
    if len < HEADER_SIZE {
        return true;
    }
    let magic = read_le(data, 0, 8);
    let raw_version = read_le(data, 8, 8);
    proof {
        assert(raw_version & 0xffffffff == raw_version % 0x1_0000_0000) by (bit_vector);
    }
    if magic != RAW_MAGIC || (raw_version & 0xffffffff) != EXPECTED_VERSION {
        return true;
    }
    let bids = read_le(data, 16, 8) as u128;
    let nd = read_le(data, 24, 8) as u128;
    let nc = read_le(data, 40, 8) as u128;
    let roff: u128 = 128 + bids;
    let coff: u128 = roff + 64 * nd;
    let max = usize::MAX as u128;
    if roff > max || coff > max {
        return false;
    }
    if coff > len as u128 {
        return true;
    }
    if coff + 8 * nc > max {
        return false;
    }
    if coff + 8 * nc > len as u128 {
        return true;
    }
    let counts = read_counts(data, roff as usize, nd as usize);
    let ghost cs = record_counts(data@, roff as int, nd as nat);
    let mut total: u128 = 0;
    let mut i: usize = 0;
    while i < counts.len()
        invariant
            i <= counts@.len(),
            counts@.len() == cs.len(),
            forall|k: int| 0 <= k < counts@.len() ==> counts@[k] == cs[k],
            total == sum_nat(cs.take(i as int)),
            total <= i * 0x1_0000_0000,
            counts@.len() <= usize::MAX,
        decreases counts@.len() - i,
    {
        proof {
            lemma_sum_prefix(cs, i as int);
            assert(i * 0x1_0000_0000 + 0x1_0000_0000 <= 0x1_0000_0000_0000_0000_0000_0000) by (nonlinear_arith)
                requires
                    i < counts@.len(),
                    counts@.len() <= usize::MAX,
            ;
        }
        total = total + counts[i] as u128;
        i = i + 1;
    }
    proof {
        assert(cs.take(i as int) =~= cs);
        assert(total <= 0x1_0000_0000_0000_0000_0000_0000) by (nonlinear_arith)
            requires
                total <= i * 0x1_0000_0000,
                i <= usize::MAX,
        ;
    }
    coff + 8 * total <= len as u128
}

// ---------------------------------------------------------------------------
// Coverage counts
// ---------------------------------------------------------------------------

/// The counts coverage percentages are computed from.
pub struct CoverageCounts {
    /// Counters across all functions.
    pub total_counters: u128,
    /// Non-zero counters across all functions.
    pub covered_counters: u128,
    /// Number of functions.
    pub total_functions: u128,
    /// Functions with at least one non-zero counter.
    pub covered_functions: u128,
}

pub open spec fn sum_counters(fs: Seq<FunctionView>) -> nat
    decreases fs.len(),
{
    if fs.len() == 0 { 0 } else { sum_counters(fs.drop_last()) + fs.last().num_counters }
}

pub open spec fn sum_covered(fs: Seq<FunctionView>) -> nat
    decreases fs.len(),
{
    if fs.len() == 0 { 0 } else { sum_covered(fs.drop_last()) + fs.last().covered }
}

pub open spec fn count_covered_functions(fs: Seq<FunctionView>) -> nat
    decreases fs.len(),
{
    if fs.len() == 0 {
        0
    } else {
        count_covered_functions(fs.drop_last()) + if fs.last().covered > 0 { 1nat } else { 0nat }
    }
}

proof fn lemma_count_nonzero_bound(s: Seq<nat>)
    ensures
        count_nonzero(s) <= s.len(),
    decreases s.len(),
{
    if s.len() > 0 {
        lemma_count_nonzero_bound(s.drop_last());
    }
}

proof fn lemma_sums_bounded(fs: Seq<FunctionView>)
    requires
        forall|i: int| 0 <= i < fs.len() ==> #[trigger] fs[i].covered <= fs[i].num_counters,
    ensures
        sum_covered(fs) <= sum_counters(fs),
        count_covered_functions(fs) <= fs.len(),
    decreases fs.len(),
{
    if fs.len() > 0 {
        assert forall|i: int| 0 <= i < fs.drop_last().len() implies #[trigger] fs.drop_last()[i].covered
            <= fs.drop_last()[i].num_counters by {
            assert(fs.drop_last()[i] == fs[i]);
        }
        lemma_sums_bounded(fs.drop_last());
        assert(fs[fs.len() - 1].covered <= fs[fs.len() - 1].num_counters);
    }
}

/// The first `n` words of the counter section of `d`, in order.
pub open spec fn counter_words(d: Seq<u8>, n: nat) -> Seq<nat> {
    Seq::new(n, |k: int| le_at(d, counters_offset(d) + 8 * k, 8))
}

/// The counters of the functions `fs`, one function after another.
pub open spec fn all_counters(fs: Seq<FunctionView>) -> Seq<nat>
    decreases fs.len(),
{
    if fs.len() == 0 {
        Seq::empty()
    } else {
        all_counters(fs.drop_last()) + fs.last().counters
    }
}

proof fn lemma_counters_prefix(d: Seq<u8>, m: int)
    requires
        parse_profile(d) is Ok,
        0 <= m <= parse_profile(d)->Ok_0.functions.len(),
    ensures
        all_counters(parse_profile(d)->Ok_0.functions.take(m)) == counter_words(
            d,
            sum_nat(record_counts(d, records_offset(d) as int, header_word(d, 3)).take(m)),
        ),
    decreases m,
{
    let fs = parse_profile(d)->Ok_0.functions;
    let counts = record_counts(d, records_offset(d) as int, header_word(d, 3));
    if m == 0 {
        assert(fs.take(0) =~= Seq::<FunctionView>::empty());
        assert(counts.take(0) =~= Seq::<nat>::empty());
        assert(counter_words(d, 0) =~= Seq::<nat>::empty());
    } else {
        lemma_counters_prefix(d, m - 1);
        lemma_sum_prefix(counts, m - 1);
        assert(fs.take(m).drop_last() =~= fs.take(m - 1));
        let f = fs[m - 1];
        assert(f == function_view(d, counters_offset(d) as int, counts, m - 1));
        let start = sum_nat(counts.take(m - 1));
        assert(all_counters(fs.take(m)) =~= counter_words(d, sum_nat(counts.take(m)))) by {
            assert(all_counters(fs.take(m)) == all_counters(fs.take(m - 1)) + f.counters);
            assert forall|k: int| 0 <= k < sum_nat(counts.take(m)) implies #[trigger] all_counters(fs.take(m))[k]
                == counter_words(d, sum_nat(counts.take(m)))[k] by {
                if k >= start {
                    assert(f.counters[k - start] == le_at(d, counters_offset(d) + 8 * (start + (k - start)), 8));
                }
            }
        }
    }
}

/// Parsing shares the counter section out among the functions in record
/// order: each function gets as many counters as its data record
/// announces, and the functions' counters, one after another, are the
/// first words of the section.
pub proof fn lemma_counters_split_section(d: Seq<u8>)
    requires
        parse_profile(d) is Ok,
    ensures
        forall|i: int|
            0 <= i < parse_profile(d)->Ok_0.functions.len() ==> #[trigger] parse_profile(d)->Ok_0.functions[i].counters.len()
                == le_at(d, records_offset(d) + 64 * i + 48, 4),
        all_counters(parse_profile(d)->Ok_0.functions) == counter_words(
            d,
            all_counters(parse_profile(d)->Ok_0.functions).len(),
        ),
{
    let fs = parse_profile(d)->Ok_0.functions;
    let n = fs.len() as int;
    lemma_counters_prefix(d, n);
    assert(fs.take(n) =~= fs);
}

/// Coverage never exceeds the whole: in a parsed profile, the covered
/// counters are at most all counters, and the covered functions at most
/// all functions.
pub proof fn lemma_coverage_within_totals(d: Seq<u8>)
    requires
        parse_profile(d) is Ok,
    ensures
        sum_covered(parse_profile(d)->Ok_0.functions) <= sum_counters(parse_profile(d)->Ok_0.functions),
        count_covered_functions(parse_profile(d)->Ok_0.functions) <= parse_profile(d)->Ok_0.functions.len(),
{
    let fs = parse_profile(d)->Ok_0.functions;
    assert forall|i: int| 0 <= i < fs.len() implies #[trigger] fs[i].covered <= fs[i].num_counters by {
        let f = fs[i];
        lemma_count_nonzero_bound(f.counters);
    }
    lemma_sums_bounded(fs);
}

/// Tallies the counters and functions of a parsed profile: line coverage is
/// `covered_counters / total_counters`, function coverage is
/// `covered_functions / total_functions`.
pub fn coverage_counts(p: &RawProfile) -> (c: CoverageCounts)
    requires
        p.functions@.len() <= usize::MAX,
    ensures
        forall|v: ProfileView| profile_matches(*p, v) ==> {
            &&& c.total_counters == sum_counters(v.functions)
            &&& c.covered_counters == sum_covered(v.functions)
            &&& c.total_functions == v.functions.len()
            &&& c.covered_functions == count_covered_functions(v.functions)
        },
{
    let mut total: u128 = 0;
    let mut covered: u128 = 0;
    let mut funcs: u128 = 0;
    let mut i: usize = 0;
    while i < p.functions.len()
        invariant
            i <= p.functions@.len(),
            forall|v: ProfileView| #[trigger] profile_matches(*p, v) ==> {
                &&& total == sum_counters(v.functions.take(i as int))
                &&& covered == sum_covered(v.functions.take(i as int))
                &&& funcs == count_covered_functions(v.functions.take(i as int))
            },
            total <= i * 0x1_0000_0000,
            covered <= i * 0x1_0000_0000,
            funcs <= i,
        decreases p.functions@.len() - i,
    {
        let f = &p.functions[i];
        proof {
            assert forall|v: ProfileView| #[trigger] profile_matches(*p, v) implies {
                &&& v.functions.take(i + 1).drop_last() == v.functions.take(i as int)
                &&& v.functions.take(i + 1).last() == v.functions[i as int]
                &&& function_matches(*f, v.functions[i as int])
            } by {
                assert(v.functions.take(i + 1).drop_last() =~= v.functions.take(i as int));
                assert(function_matches(p.functions@[i as int], v.functions[i as int]));
            }
            assert(i * 0x1_0000_0000 + 0x1_0000_0000 <= 0x1_0000_0000_0000_0000_0000_0000) by (nonlinear_arith)
                requires
                    i < p.functions@.len(),
                    p.functions@.len() <= usize::MAX,
            ;
        }
        total = total + f.num_counters as u128;
        covered = covered + f.covered as u128;
        if f.covered > 0 {
            funcs = funcs + 1;
        }
        i = i + 1;
    }
    proof {
        assert forall|v: ProfileView| #[trigger] profile_matches(*p, v) implies v.functions.take(i as int) == v.functions by {
            assert(v.functions.take(i as int) =~= v.functions);
        }
    }
    CoverageCounts { total_counters: total, covered_counters: covered, total_functions: i as u128, covered_functions: funcs }
}

} // verus!
