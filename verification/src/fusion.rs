//! The fusion batcher: partitions accepted API-combination programs into
//! contiguous batches, synthesizes one coalescing "core" translation unit
//! per batch, and names members and core directories deterministically.
//! The filesystem copies and the per-batch compiles are driven by the
//! caller; everything the batcher decides or writes is specified here
//! character by character.

use vstd::prelude::*;
use crate::strutil::{dec_digits, replace_all, replace_all_exec, u64_to_dec, u64_to_dec_padded, zero_pad};

verus! {

/// The canonical entry-function name of a driver for library `lib`.
pub open spec fn entry_fn_name(lib: Seq<char>) -> Seq<char> {
    "test_"@ + lib + "_api_sequence"@
}

/// The entry-function name renamed with an ordinal suffix.
pub open spec fn entry_fn_name_id(lib: Seq<char>, id: nat) -> Seq<char> {
    entry_fn_name(lib) + "_"@ + dec_digits(id)
}

/// The scratch file name of member `id`: `id_` plus the zero-padded
/// six-digit ordinal plus `.cc`.
pub open spec fn member_file_name_spec(id: nat) -> Seq<char> {
    "id_"@ + zero_pad(dec_digits(id), 6) + ".cc"@
}

/// The output directory name of core `core_id`: `Core_` plus the
/// zero-padded three-digit ordinal.
pub open spec fn core_dir_name_spec(core_id: nat) -> Seq<char> {
    "Core_"@ + zero_pad(dec_digits(core_id), 3)
}

/// One forward declaration of a member's renamed entry function.
pub open spec fn decl_line(lib: Seq<char>, id: nat) -> Seq<char> {
    "int "@ + entry_fn_name_id(lib, id) + "();\n"@
}

/// The forward-declaration block of a batch, one line per member in order.
pub open spec fn decl_block(lib: Seq<char>, ids: Seq<usize>) -> Seq<char>
    decreases ids.len(),
{
    if ids.len() == 0 {
        Seq::<char>::empty()
    } else {
        decl_block(lib, ids.drop_last()) + decl_line(lib, ids.last() as nat)
    }
}

/// The progress message printed before the `pos`-th member runs.
pub open spec fn progress_line(pos: nat) -> Seq<char> {
    "\tstd::cout << \"Running program "@ + dec_digits(pos) + "...\" << std::endl;\n"@
}

/// The invocation of one member's renamed entry function.
pub open spec fn call_line(lib: Seq<char>, id: nat) -> Seq<char> {
    "\t"@ + entry_fn_name_id(lib, id) + "();\n"@
}

/// The body of `main`: for each member in order, a progress message and the
/// call of its renamed entry function.
pub open spec fn main_calls(lib: Seq<char>, ids: Seq<usize>) -> Seq<char>
    decreases ids.len(),
{
    if ids.len() == 0 {
        Seq::<char>::empty()
    } else {
        main_calls(lib, ids.drop_last()) + progress_line((ids.len() - 1) as nat) + call_line(
            lib,
            ids.last() as nat,
        )
    }
}

/// The whole core translation unit of a batch.
pub open spec fn core_text(header: Seq<char>, lib: Seq<char>, ids: Seq<usize>) -> Seq<char> {
    header + "\n\n"@ + decl_block(lib, ids) + "\n\n"@ + "int main(int argc, char* argv[])\n{\n"@
        + main_calls(lib, ids) + "\treturn 0;\n"@ + "}\n"@
}

/// How many batches of size `b` cover `n` members: the ceiling of `n / b`.
pub open spec fn num_batches(n: nat, b: nat) -> nat {
    ((n + b - 1) as nat) / b
}

/// The member ordinals of batch `k`: the contiguous run from `k * b` to the
/// end of the batch, clipped at `n`.
pub open spec fn batch_ids(n: nat, b: nat, k: nat) -> Seq<usize> {
    let start = k * b;
    let end = if (k + 1) * b <= n {
        (k + 1) * b
    } else {
        n
    };
    if start <= end {
        Seq::new((end - start) as nat, |i: int| (start + i) as usize)
    } else {
        Seq::<usize>::empty()
    }
}

/// The batch that member ordinal `id` falls into.
pub open spec fn covering_batch(n: nat, b: nat, id: nat) -> nat {
    id / b
}

/// The batch count times the batch size covers `n`, the count is zero only
/// for zero members, and dropping the last batch no longer covers `n`.
pub proof fn lemma_num_batches_bounds(n: nat, b: nat)
    requires
        b >= 1,
    ensures
        num_batches(n, b) * b >= n,
        num_batches(n, b) == 0 ==> n == 0,
        num_batches(n, b) >= 1 ==> (num_batches(n, b) - 1) * b < n,
{
    let q = num_batches(n, b) as int;
    vstd::arithmetic::div_mod::lemma_fundamental_div_mod(n as int + b - 1, b as int);
    vstd::arithmetic::div_mod::lemma_mod_bound(n as int + b - 1, b as int);
    let r = (n as int + b - 1) % (b as int);
    assert(n as int + b - 1 == (b as int) * q + r);
    assert(q * b == (b as int) * q) by {
        vstd::arithmetic::mul::lemma_mul_is_commutative(q, b as int);
    }
    if q == 0 {
        assert((b as int) * 0 == 0) by {
            vstd::arithmetic::mul::lemma_mul_by_zero_is_zero(b as int);
        }
    }
    assert((q - 1) * b == q * b - b) by {
        vstd::arithmetic::mul::lemma_mul_is_distributive_sub_other_way(b as int, q, 1);
    }
}

/// The ceiling division characterized: `k` batches of size `b` are exactly
/// enough to cover `n` members.
proof fn lemma_ceil_div(n: int, b: int, k: int)
    requires
        b >= 1,
        k >= 0,
        k * b >= n,
        k == 0 ==> n == 0,
        k >= 1 ==> (k - 1) * b < n,
    ensures
        (n + b - 1) / b == k,
{
    assert((k - 1) * b == k * b - b) by {
        vstd::arithmetic::mul::lemma_mul_is_distributive_sub_other_way(b, k, 1);
    }
    let x = n + b - 1;
    let r = x - k * b;
    if k == 0 {
        vstd::arithmetic::div_mod::lemma_fundamental_div_mod_converse(x, b, 0, x);
    } else {
        assert(x == k * b + r);
        assert(0 <= r < b);
        vstd::arithmetic::div_mod::lemma_fundamental_div_mod_converse(x, b, k, r);
    }
}

/// Law: the batches fully partition the member list. Every batch before the
/// last holds exactly `b` contiguous ordinals, the last holds between one
/// and `b`, the ordinals of batch `k` are exactly `k*b`, `k*b + 1`, ... (so
/// the suffixes within one core are distinct), and every member ordinal
/// under `n` lies in exactly the batch `id / b`.
pub proof fn lemma_batches_partition(n: nat, b: nat)
    requires
        b >= 1,
        n <= usize::MAX,
    ensures
        forall|k: nat|
            k < num_batches(n, b) ==> 1 <= (#[trigger] batch_ids(n, b, k)).len() <= b,
        forall|k: nat|
            k + 1 < num_batches(n, b) ==> (#[trigger] batch_ids(n, b, k)).len() == b,
        forall|k: nat, i: int|
            k < num_batches(n, b) && 0 <= i < batch_ids(n, b, k).len() ==> (
            #[trigger] batch_ids(n, b, k)[i]) == k * b + i,
        forall|id: nat|
            id < n ==> {
                let k = #[trigger] covering_batch(n, b, id);
                &&& k < num_batches(n, b)
                &&& 0 <= id - k * b < batch_ids(n, b, k).len()
                &&& batch_ids(n, b, k)[id - k * b] == id
            },
        forall|k: nat, i: int, j: int|
            k < num_batches(n, b) && 0 <= i < batch_ids(n, b, k).len() && 0 <= j < batch_ids(
                n,
                b,
                k,
            ).len() && i != j ==> (#[trigger] batch_ids(n, b, k)[i]) != (#[trigger] batch_ids(
                n,
                b,
                k,
            )[j]),
{
    lemma_num_batches_bounds(n, b);
    let q = num_batches(n, b);
    assert forall|k: nat| k < q implies 1 <= (#[trigger] batch_ids(n, b, k)).len() <= b by {
        lemma_batch_k_facts(n, b, k);
    }
    assert forall|k: nat| k + 1 < q implies (#[trigger] batch_ids(n, b, k)).len() == b by {
        lemma_batch_k_facts(n, b, k);
        assert((k + 1) * b <= (q - 1) * b) by {
            vstd::arithmetic::mul::lemma_mul_inequality(k as int + 1, q as int - 1, b as int);
        }
        assert((q - 1) * b < n);
        assert((k + 1) * b == k * b + b) by {
            vstd::arithmetic::mul::lemma_mul_is_distributive_add_other_way(b as int, k as int, 1);
        }
    }
    assert forall|k: nat, i: int|
        k < q && 0 <= i < batch_ids(n, b, k).len() implies (#[trigger] batch_ids(n, b, k)[i])
        == k * b + i by {
        lemma_batch_k_facts(n, b, k);
    }
    assert forall|id: nat| id < n implies {
        let k = #[trigger] covering_batch(n, b, id);
        &&& k < num_batches(n, b)
        &&& 0 <= id - k * b < batch_ids(n, b, k).len()
        &&& batch_ids(n, b, k)[id - k * b] == id
    } by {
        let k = id / b;
        vstd::arithmetic::div_mod::lemma_fundamental_div_mod(id as int, b as int);
        vstd::arithmetic::div_mod::lemma_mod_bound(id as int, b as int);
        assert(k * b <= id) by {
            assert(id as int == k * b + (id as int) % (b as int));
        }
        assert(id < k * b + b);
        assert((k + 1) * b == k * b + b) by {
            vstd::arithmetic::mul::lemma_mul_is_distributive_add_other_way(b as int, k as int, 1);
        }
        assert(k < q) by {
            if k >= q {
                assert(q * b <= k * b) by {
                    vstd::arithmetic::mul::lemma_mul_inequality(q as int, k as int, b as int);
                }
            }
        }
        lemma_batch_k_facts(n, b, k);
    }
}

/// Size and contents of one in-range batch.
proof fn lemma_batch_k_facts(n: nat, b: nat, k: nat)
    requires
        b >= 1,
        n <= usize::MAX,
        k < num_batches(n, b),
    ensures
        k * b < n,
        1 <= batch_ids(n, b, k).len() <= b,
        forall|i: int|
            0 <= i < batch_ids(n, b, k).len() ==> (#[trigger] batch_ids(n, b, k)[i]) == k * b
                + i,
{
    lemma_num_batches_bounds(n, b);
    let q = num_batches(n, b);
    assert(k * b <= (q - 1) * b) by {
        vstd::arithmetic::mul::lemma_mul_inequality(k as int, q as int - 1, b as int);
    }
    assert((q - 1) * b < n);
    assert((k + 1) * b == k * b + b) by {
        vstd::arithmetic::mul::lemma_mul_is_distributive_add_other_way(b as int, k as int, 1);
    }
}

/// The canonical entry-function name, computed.
pub fn entry_name(lib: &str) -> (r: String)
    ensures
        r@ == entry_fn_name(lib@),
{
    let mut out: String = String::new();
    out.append("test_");
    out.append(lib);
    out.append("_api_sequence");
    proof {
        assert(out@ =~= entry_fn_name(lib@));
    }
    out
}

/// The suffixed entry-function name, computed.
pub fn entry_name_with_id(lib: &str, id: usize) -> (r: String)
    ensures
        r@ == entry_fn_name_id(lib@, id as nat),
{
    let mut out: String = entry_name(lib);
    out.append("_");
    let digits: String = u64_to_dec(id as u64);
    out.append(digits.as_str());
    proof {
        assert(out@ =~= entry_fn_name_id(lib@, id as nat));
    }
    out
}

/// The scratch file name of member `id`, computed.
pub fn member_file_name(id: usize) -> (r: String)
    ensures
        r@ == member_file_name_spec(id as nat),
{
    let mut out: String = String::new();
    out.append("id_");
    let digits: String = u64_to_dec_padded(id as u64, 6);
    out.append(digits.as_str());
    out.append(".cc");
    proof {
        assert(out@ =~= member_file_name_spec(id as nat));
    }
    out
}

/// The path of a core binary inside its core directory.
pub fn get_core_path(core_dir: &str) -> (r: String)
    ensures
        r@ == core_dir@ + "/core"@,
{
    let mut out: String = core_dir.to_owned();
    out.append("/core");
    out
}

/// One fused batch: its ordinal, its output directory name, the text of its
/// core translation unit, and the member ordinals it coalesces.
pub struct FusedCore {
    /// Position of this batch among all batches.
    pub core_id: usize,
    /// `Core_NNN`, zero-padded to width three.
    pub dir_name: String,
    /// The full text of this batch's `core.cc`.
    pub core_content: String,
    /// The member ordinals of this batch, contiguous and increasing.
    pub member_ids: Vec<usize>,
}

/// The fusion batcher over one list of accepted programs.
pub struct CNTGProgram {
    /// The member program sources, in acceptance order.
    pub programs: Vec<String>,
    /// How many members one fused core coalesces.
    pub batch: usize,
    /// The library name used in entry-function names.
    pub lib_name: String,
    /// The header block placed at the top of every core.
    pub header: String,
}

impl CNTGProgram {
    /// A batcher over `programs` with the given batch size.
    pub fn new(programs: Vec<String>, batch_size: usize, lib_name: String, header: String) -> (r:
        CNTGProgram)
        requires
            batch_size >= 1,
        ensures
            r.programs == programs,
            r.batch == batch_size,
            r.lib_name == lib_name,
            r.header == header,
    {
        CNTGProgram { programs, batch: batch_size, lib_name, header }
    }

    /// The scratch names the members are copied to, purely for stable,
    /// collision-free ordering: `id_NNNNNN.cc`, strictly increasing by
    /// input order.
    pub fn transform(&self) -> (r: Vec<String>)
        ensures
            r.len() == self.programs.len(),
            forall|i: int| 0 <= i < r.len() ==> (#[trigger] r@[i])@ == member_file_name_spec(
                i as nat,
            ),
    {
        let n: usize = self.programs.len();
        let mut out: Vec<String> = Vec::new();
        let mut i: usize = 0;
        while i < n
            invariant
                i <= n,
                out.len() == i,
                forall|j: int| 0 <= j < i ==> (#[trigger] out@[j])@ == member_file_name_spec(
                    j as nat,
                ),
            decreases n - i,
        {
            out.push(member_file_name(i));
            i = i + 1;
        }
        out
    }

    /// The output directory name of core `core_id`.
    pub fn get_core_dir(&self, core_id: usize) -> (r: String)
        ensures
            r@ == core_dir_name_spec(core_id as nat),
    {
        let mut out: String = String::new();
        out.append("Core_");
        let digits: String = u64_to_dec_padded(core_id as u64, 3);
        out.append(digits.as_str());
        proof {
            assert(out@ =~= core_dir_name_spec(core_id as nat));
        }
        out
    }

    /// Partition the members into contiguous batches of `batch` ordinals
    /// (the last batch possibly smaller, never empty) and synthesize each
    /// batch's core translation unit and output directory name.
    pub fn synthesis(&self) -> (r: Vec<FusedCore>)
        requires
            self.batch >= 1,
        ensures
            r.len() == num_batches(self.programs.len() as nat, self.batch as nat),
            forall|k: int|
                0 <= k < r.len() ==> {
                    let ids = batch_ids(
                        self.programs.len() as nat,
                        self.batch as nat,
                        k as nat,
                    );
                    &&& (#[trigger] r@[k]).core_id == k
                    &&& r@[k].member_ids@ == ids
                    &&& r@[k].dir_name@ == core_dir_name_spec(k as nat)
                    &&& r@[k].core_content@ == core_text(self.header@, self.lib_name@, ids)
                },
    {
        let n: usize = self.programs.len();
        let b: usize = self.batch;
        let mut cores: Vec<FusedCore> = Vec::new();
        let mut k: usize = 0;
        let mut next: usize = 0;
        while next < n
            invariant
                b >= 1,
                n == self.programs.len(),
                b == self.batch,
                cores.len() == k,
                next <= n,
                (k as int) * (b as int) == next as int || (next == n && (k as int) * (b as int)
                    >= n as int),
                k == 0 ==> next == 0,
                k >= 1 ==> (k as int - 1) * (b as int) < n as int,
                forall|kk: int|
                    0 <= kk < k ==> {
                        let ids = batch_ids(n as nat, b as nat, kk as nat);
                        &&& (#[trigger] cores@[kk]).core_id == kk
                        &&& cores@[kk].member_ids@ == ids
                        &&& cores@[kk].dir_name@ == core_dir_name_spec(kk as nat)
                        &&& cores@[kk].core_content@ == core_text(
                            self.header@,
                            self.lib_name@,
                            ids,
                        )
                    },
            decreases n - next,
        {
            proof {
                assert((k as int) * (b as int) == next as int);
            }
            let end: usize = if n - next > b {
                next + b
            } else {
                n
            };
            let mut ids: Vec<usize> = Vec::new();
            let mut t: usize = next;
            while t < end
                invariant
                    next <= t <= end,
                    end <= n,
                    ids.len() == t - next,
                    forall|i: int| 0 <= i < ids.len() ==> (#[trigger] ids@[i]) == next + i,
                decreases end - t,
            {
                ids.push(t);
                t = t + 1;
            }
            proof {
                assert((k as int + 1) * (b as int) == (k as int) * (b as int) + b as int) by {
                    vstd::arithmetic::mul::lemma_mul_is_distributive_add_other_way(
                        b as int,
                        k as int,
                        1,
                    );
                }
                assert(ids@ =~= batch_ids(n as nat, b as nat, k as nat));
            }
            let content: String = self.synthesis_batch(&ids);
            let dir: String = self.get_core_dir(k);
            let ghost pre = cores@;
            cores.push(
                FusedCore { core_id: k, dir_name: dir, core_content: content, member_ids: ids },
            );
            proof {
                assert(forall|kk: int| 0 <= kk < pre.len() ==> cores@[kk] == pre[kk]);
                assert((k as int + 1) * (b as int) == (k as int) * (b as int) + b as int) by {
                    vstd::arithmetic::mul::lemma_mul_is_distributive_add_other_way(
                        b as int,
                        k as int,
                        1,
                    );
                }
            }
            proof {
                if k >= 1 {
                    assert((k as int) * 1 <= (k as int) * (b as int)) by {
                        vstd::arithmetic::mul::lemma_mul_left_inequality(k as int, 1, b as int);
                    }
                }
                assert(k < n);
            }
            k = k + 1;
            next = end;
        }
        proof {
            if k >= 1 {
                assert((k as int) * (b as int) >= n as int);
            } else {
                assert(next == 0 && next >= n);
                assert((k as int) * (b as int) == 0) by {
                    vstd::arithmetic::mul::lemma_mul_by_zero_is_zero(b as int);
                    vstd::arithmetic::mul::lemma_mul_is_commutative(0, b as int);
                }
            }
            lemma_ceil_div(n as int, b as int, k as int);
        }
        cores
    }

    /// Rewrite one member's source text for linking into a core: every
    /// occurrence of the canonical entry-function name gains this member's
    /// ordinal suffix. The replacement is textual, not syntax-aware: an
    /// identical substring in a comment or string literal is renamed too,
    /// a known correctness risk of the scheme.
    pub fn change_driver_id(&self, content: &str, driver_id: usize) -> (r: String)
        ensures
            r@ == replace_all(
                content@,
                entry_fn_name(self.lib_name@),
                entry_fn_name_id(self.lib_name@, driver_id as nat),
            ),
    {
        let pat: String = entry_name(self.lib_name.as_str());
        let to: String = entry_name_with_id(self.lib_name.as_str(), driver_id);
        proof {
            reveal_strlit("test_");
        }
        replace_all_exec(content, pat.as_str(), to.as_str())
    }

    /// Synthesize the core translation unit of one batch: the library
    /// header, a forward declaration per member, and a `main` that runs the
    /// members in ordinal order with a progress message per call.
    pub fn synthesis_batch(&self, batch_id: &Vec<usize>) -> (r: String)
        ensures
            r@ == core_text(self.header@, self.lib_name@, batch_id@),
    {
        let mut stmts: String = String::new();
        stmts.append(self.header.as_str());
        stmts.append("\n\n");
        let n: usize = batch_id.len();
        let mut j: usize = 0;
        while j < n
            invariant
                j <= n,
                n == batch_id.len(),
                stmts@ =~= self.header@ + "\n\n"@ + decl_block(
                    self.lib_name@,
                    batch_id@.take(j as int),
                ),
            decreases n - j,
        {
            let ghost pre = stmts@;
            let line: String = entry_name_with_id(self.lib_name.as_str(), batch_id[j]);
            stmts.append("int ");
            stmts.append(line.as_str());
            stmts.append("();\n");
            proof {
                assert(batch_id@.take(j as int + 1).drop_last() =~= batch_id@.take(j as int));
                assert(stmts@ =~= pre + decl_line(self.lib_name@, batch_id@[j as int] as nat));
                assert(stmts@ =~= self.header@ + "\n\n"@ + decl_block(
                    self.lib_name@,
                    batch_id@.take(j as int + 1),
                ));
            }
            j = j + 1;
        }
        proof {
            assert(batch_id@.take(n as int) =~= batch_id@);
        }
        stmts.append("\n\n");
        stmts.append("int main(int argc, char* argv[])\n{\n");
        let ghost mid = self.header@ + "\n\n"@ + decl_block(self.lib_name@, batch_id@) + "\n\n"@
            + "int main(int argc, char* argv[])\n{\n"@;
        proof {
            assert(stmts@ =~= mid);
        }
        let mut i: usize = 0;
        while i < n
            invariant
                i <= n,
                n == batch_id.len(),
                mid == self.header@ + "\n\n"@ + decl_block(self.lib_name@, batch_id@) + "\n\n"@
                    + "int main(int argc, char* argv[])\n{\n"@,
                stmts@ =~= mid + main_calls(self.lib_name@, batch_id@.take(i as int)),
            decreases n - i,
        {
            let ghost pre = stmts@;
            stmts.append("\tstd::cout << \"Running program ");
            let pos_digits: String = u64_to_dec(i as u64);
            stmts.append(pos_digits.as_str());
            stmts.append("...\" << std::endl;\n");
            stmts.append("\t");
            let name: String = entry_name_with_id(self.lib_name.as_str(), batch_id[i]);
            stmts.append(name.as_str());
            stmts.append("();\n");
            proof {
                assert(batch_id@.take(i as int + 1).drop_last() =~= batch_id@.take(i as int));
                assert(stmts@ =~= pre + progress_line(i as nat) + call_line(
                    self.lib_name@,
                    batch_id@[i as int] as nat,
                ));
                assert(stmts@ =~= mid + main_calls(
                    self.lib_name@,
                    batch_id@.take(i as int + 1),
                ));
            }
            i = i + 1;
        }
        proof {
            assert(batch_id@.take(n as int) =~= batch_id@);
        }
        stmts.append("\treturn 0;\n");
        stmts.append("}\n");
        proof {
            assert(stmts@ =~= core_text(self.header@, self.lib_name@, batch_id@));
        }
        stmts
    }
}

} // verus!
