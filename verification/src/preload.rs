//! Injection of the guest-side runtime library into the target's
//! environment: every `LD_PRELOAD` entry found among the emulator arguments
//! or in the forwarded guest environment is prefixed with the sanitizer
//! library's path, and if none is present one is inserted.
//!
//! Entries are byte strings, as environments are on the systems the emulator
//! targets; the embedder converts from and to its own string type, finds the
//! library's path on disk, and runs the emulator.

use vstd::prelude::*;

verus! {

/// The bytes of `LD_PRELOAD=`.
pub open spec fn ld_preload_prefix() -> Seq<u8> {
    seq![76u8, 68u8, 95u8, 80u8, 82u8, 69u8, 76u8, 79u8, 65u8, 68u8, 61u8]
}

/// The bytes of `QEMU_SET_ENV`, the variable forwarding guest environment
/// entries.
pub open spec fn qemu_set_env_key() -> Seq<u8> {
    seq![81u8, 69u8, 77u8, 85u8, 95u8, 83u8, 69u8, 84u8, 95u8, 69u8, 78u8, 86u8]
}

/// The bytes of the `-E` flag.
pub open spec fn e_flag() -> Seq<u8> {
    seq![45u8, 69u8]
}

/// Whether an entry sets `LD_PRELOAD`.
pub open spec fn is_ld_preload(e: Seq<u8>) -> bool {
    e.len() >= 11 && e.take(11) == ld_preload_prefix()
}

/// An `LD_PRELOAD` entry with the library's path prepended to its value;
/// any other entry unchanged.
pub open spec fn rewrite_one(e: Seq<u8>, lib: Seq<u8>) -> Seq<u8> {
    if is_ld_preload(e) {
        ld_preload_prefix() + lib + seq![32u8] + e.skip(11)
    } else {
        e
    }
}

/// Position of the first comma of `s`, or its length.
pub open spec fn first_comma(s: Seq<u8>) -> int
    decreases s.len(),
{
    if s.len() == 0 {
        0
    } else if s[0] == 44u8 {
        0
    } else {
        1 + first_comma(s.skip(1))
    }
}

/// The first comma's position is within bounds.
pub proof fn lemma_first_comma_bounds(s: Seq<u8>)
    ensures
        0 <= first_comma(s) <= s.len(),
    decreases s.len(),
{
    if s.len() > 0 && s[0] != 44u8 {
        lemma_first_comma_bounds(s.skip(1));
    }
}

/// A comma-separated list with every `LD_PRELOAD` entry rewritten.
pub open spec fn rewrite_list(s: Seq<u8>, lib: Seq<u8>) -> Seq<u8>
    decreases s.len(),
    via rewrite_list_decreases
{
    let f = first_comma(s);
    if f == s.len() {
        rewrite_one(s, lib)
    } else {
        rewrite_one(s.take(f), lib) + seq![44u8] + rewrite_list(s.skip(f + 1), lib)
    }
}

#[via_fn]
proof fn rewrite_list_decreases(s: Seq<u8>, lib: Seq<u8>) {
    lemma_first_comma_bounds(s);
}

/// Whether a comma-separated list holds an `LD_PRELOAD` entry.
pub open spec fn list_has_preload(s: Seq<u8>) -> bool
    decreases s.len(),
    via list_has_preload_decreases
{
    let f = first_comma(s);
    if f == s.len() {
        is_ld_preload(s)
    } else {
        is_ld_preload(s.take(f)) || list_has_preload(s.skip(f + 1))
    }
}

#[via_fn]
proof fn list_has_preload_decreases(s: Seq<u8>) {
    lemma_first_comma_bounds(s);
}

/// The environment after injection: `QEMU_SET_ENV` values rewritten, every
/// other entry untouched.
pub open spec fn env_entry_rewritten(
    entry: (Seq<u8>, Seq<u8>),
    lib: Seq<u8>,
) -> (Seq<u8>, Seq<u8>) {
    if entry.0 == qemu_set_env_key() {
        (entry.0, rewrite_list(entry.1, lib))
    } else {
        entry
    }
}

/// Whether the argument at position `j` is the value of an `-E` pair whose
/// entry sets `LD_PRELOAD`.
pub open spec fn arg_is_preload_value(args: Seq<Seq<u8>>, j: int) -> bool {
    j >= 1 && args[j - 1] == e_flag() && is_ld_preload(args[j])
}

/// Whether the arguments carry an `LD_PRELOAD` entry behind `-E`.
pub open spec fn args_have_preload(args: Seq<Seq<u8>>) -> bool {
    exists|j: int| 1 <= j < args.len() && #[trigger] arg_is_preload_value(args, j)
}

/// Whether the environment forwards an `LD_PRELOAD` entry.
pub open spec fn env_has_preload(env: Seq<(Seq<u8>, Seq<u8>)>, lib: Seq<u8>) -> bool {
    exists|i: int|
        0 <= i < env.len() && (#[trigger] env[i]).0 == qemu_set_env_key() && list_has_preload(
            env[i].1,
        )
}

/// Exact copy of a byte vector.
fn copy_bytes(v: &Vec<u8>) -> (r: Vec<u8>)
    ensures
        r@ == v@,
{
    let n = v.len();
    let mut r: Vec<u8> = Vec::new();
    let mut i: usize = 0;
    while i < n
        invariant
            n == v@.len(),
            i <= n,
            r@ == v@.take(i as int),
        decreases n - i,
    {
        r.push(v[i]);
        proof {
            assert(r@ =~= v@.take(i + 1));
        }
        i = i + 1;
    }
    proof {
        assert(v@.take(n as int) =~= v@);
    }
    r
}

/// Copy of `v[from..to]`.
fn copy_range(v: &Vec<u8>, from: usize, to: usize) -> (r: Vec<u8>)
    requires
        from <= to <= v@.len(),
    ensures
        r@ == v@.subrange(from as int, to as int),
    decreases to - from,
{
    let mut r: Vec<u8> = Vec::new();
    let mut i: usize = from;
    while i < to
        invariant
            from <= i <= to <= v@.len(),
            r@ == v@.subrange(from as int, i as int),
        decreases to - i,
    {
        r.push(v[i]);
        proof {
            assert(r@ =~= v@.subrange(from as int, i + 1));
        }
        i = i + 1;
    }
    r
}

/// The `LD_PRELOAD=` bytes.
fn ld_preload_prefix_bytes() -> (r: Vec<u8>)
    ensures
        r@ == ld_preload_prefix(),
{
    let mut r: Vec<u8> = Vec::new();
    r.push(76);
    r.push(68);
    r.push(95);
    r.push(80);
    r.push(82);
    r.push(69);
    r.push(76);
    r.push(79);
    r.push(65);
    r.push(68);
    r.push(61);
    proof {
        assert(r@ =~= ld_preload_prefix());
    }
    r
}

/// The `QEMU_SET_ENV` bytes.
pub fn qemu_set_env_key_bytes() -> (r: Vec<u8>)
    ensures
        r@ == qemu_set_env_key(),
{
    let mut r: Vec<u8> = Vec::new();
    r.push(81);
    r.push(69);
    r.push(77);
    r.push(85);
    r.push(95);
    r.push(83);
    r.push(69);
    r.push(84);
    r.push(95);
    r.push(69);
    r.push(78);
    r.push(86);
    proof {
        assert(r@ =~= qemu_set_env_key());
    }
    r
}

/// The `-E` bytes.
pub fn e_flag_bytes() -> (r: Vec<u8>)
    ensures
        r@ == e_flag(),
{
    let mut r: Vec<u8> = Vec::new();
    r.push(45);
    r.push(69);
    proof {
        assert(r@ =~= e_flag());
    }
    r
}

/// Whether two byte vectors hold the same bytes.
fn bytes_eq(a: &Vec<u8>, b: &Vec<u8>) -> (r: bool)
    ensures
        r == (a@ == b@),
{
    let n = a.len();
    if n != b.len() {
        proof {
            assert(a@ != b@);
        }
        return false;
    }
    let mut i: usize = 0;
    while i < n
        invariant
            n == a@.len() == b@.len(),
            i <= n,
            forall|j: int| 0 <= j < i ==> a@[j] == b@[j],
        decreases n - i,
    {
        if a[i] != b[i] {
            return false;
        }
        i = i + 1;
    }
    proof {
        assert(a@ =~= b@);
    }
    true
}

/// Whether the entry sets `LD_PRELOAD`.
fn entry_is_ld_preload(e: &Vec<u8>) -> (r: bool)
    ensures
        r == is_ld_preload(e@),
{
    if e.len() < 11 {
        return false;
    }
    let r = e[0] == 76 && e[1] == 68 && e[2] == 95 && e[3] == 80 && e[4] == 82 && e[5] == 69
        && e[6] == 76 && e[7] == 79 && e[8] == 65 && e[9] == 68 && e[10] == 61;
    proof {
        if r {
            assert(e@.take(11) =~= ld_preload_prefix());
        } else {
            assert(e@.take(11) != ld_preload_prefix());
        }
    }
    r
}

/// Prefix the library's path onto an `LD_PRELOAD` entry; any other entry is
/// returned as it came.
pub fn rewrite_entry(e: &Vec<u8>, lib: &Vec<u8>) -> (r: Vec<u8>)
    ensures
        r@ == rewrite_one(e@, lib@),
{
    if !entry_is_ld_preload(e) {
        return copy_bytes(e);
    }
    let mut r = ld_preload_prefix_bytes();
    let mut libpart = copy_bytes(lib);
    r.append(&mut libpart);
    r.push(32);
    let mut rest = copy_range(e, 11, e.len());
    r.append(&mut rest);
    proof {
        assert(e@.subrange(11, e@.len() as int) =~= e@.skip(11));
        assert(r@ =~= rewrite_one(e@, lib@));
    }
    r
}

/// Rewrite a comma-separated list of environment entries from position `i`
/// on, reporting whether any entry set `LD_PRELOAD`.
fn rewrite_list_from(v: &Vec<u8>, i: usize, lib: &Vec<u8>) -> (r: (Vec<u8>, bool))
    requires
        i <= v@.len(),
    ensures
        r.0@ == rewrite_list(v@.skip(i as int), lib@),
        r.1 == list_has_preload(v@.skip(i as int)),
    decreases v@.len() - i,
{
    let n = v.len();
    let mut j: usize = i;
    while j < n && v[j] != 44
        invariant
            i <= j <= n,
            n == v@.len(),
            forall|k: int| i <= k < j ==> v@[k] != 44u8,
        decreases n - j,
    {
        j = j + 1;
    }
    proof {
        lemma_first_comma_at(v@.skip(i as int), j - i);
    }
    let segment = copy_range(v, i, j);
    proof {
        assert(v@.subrange(i as int, j as int) =~= v@.skip(i as int).take(j - i));
    }
    let rewritten = rewrite_entry(&segment, lib);
    let has = entry_is_ld_preload(&segment);
    if j == n {
        proof {
            assert(v@.skip(i as int).take(j - i) =~= v@.skip(i as int));
        }
        (rewritten, has)
    } else {
        let mut out = rewritten;
        out.push(44);
        let rec = rewrite_list_from(v, j + 1, lib);
        let mut tail = rec.0;
        out.append(&mut tail);
        proof {
            assert(v@.skip(i as int).skip(j - i + 1) =~= v@.skip(j + 1));
            assert(out@ =~= rewrite_list(v@.skip(i as int), lib@));
        }
        (out, has || rec.1)
    }
}

/// Position of the first comma matches a scan that found none earlier.
proof fn lemma_first_comma_at(s: Seq<u8>, j: int)
    requires
        0 <= j <= s.len(),
        forall|k: int| 0 <= k < j ==> s[k] != 44u8,
        j == s.len() || s[j] == 44u8,
    ensures
        first_comma(s) == j,
    decreases j,
{
    if j > 0 {
        lemma_first_comma_at(s.skip(1), j - 1);
    }
}

/// Rewrite the value of a forwarded guest environment variable: every
/// `LD_PRELOAD` entry of the comma-separated list gets the library's path,
/// and the second result says whether there was one.
pub fn rewrite_env_value(v: &Vec<u8>, lib: &Vec<u8>) -> (r: (Vec<u8>, bool))
    ensures
        r.0@ == rewrite_list(v@, lib@),
        r.1 == list_has_preload(v@),
{
    let r = rewrite_list_from(v, 0, lib);
    proof {
        assert(v@.skip(0) =~= v@);
    }
    r
}

/// Inject the sanitizer library into emulator arguments and forwarded
/// environment: every `LD_PRELOAD` entry found behind `-E` or inside a
/// `QEMU_SET_ENV` value is prefixed with the library's path; when none is
/// found anywhere, an `-E LD_PRELOAD=<lib>` pair is inserted after the
/// program name.
pub fn inject_preload(
    args: &Vec<Vec<u8>>,
    env: &Vec<(Vec<u8>, Vec<u8>)>,
    lib: &Vec<u8>,
) -> (r: (Vec<Vec<u8>>, Vec<(Vec<u8>, Vec<u8>)>))
    requires
        args@.len() >= 1,
    ensures
        r.1@.len() == env@.len(),
        forall|i: int|
            0 <= i < env@.len() ==> ((#[trigger] r.1@[i]).0@, r.1@[i].1@)
                == env_entry_rewritten(((#[trigger] env@[i]).0@, env@[i].1@), lib@),
        ({
            let added = env_has_preload(
                env@.map_values(|e: (Vec<u8>, Vec<u8>)| (e.0@, e.1@)),
                lib@,
            ) || args_have_preload(args@.map_values(|a: Vec<u8>| a@));
            if added {
                &&& r.0@.len() == args@.len()
                &&& forall|j: int|
                    0 <= j < args@.len() ==> (#[trigger] r.0@[j])@ == (
                    if arg_is_preload_value(args@.map_values(|a: Vec<u8>| a@), j) {
                        rewrite_one(args@[j]@, lib@)
                    } else {
                        args@[j]@
                    })
            } else {
                &&& r.0@.len() == args@.len() + 2
                &&& r.0@[0]@ == args@[0]@
                &&& r.0@[1]@ == e_flag()
                &&& r.0@[2]@ == ld_preload_prefix() + lib@
                &&& forall|j: int| 1 <= j < args@.len() ==> (#[trigger] r.0@[j + 2])@ == args@[j]@
            }
        }),
{
    let ghost argmodel = args@.map_values(|a: Vec<u8>| a@);
    let ghost envmodel = env@.map_values(|e: (Vec<u8>, Vec<u8>)| (e.0@, e.1@));
    let mut added = false;
    let qse = qemu_set_env_key_bytes();
    let mut new_env: Vec<(Vec<u8>, Vec<u8>)> = Vec::new();
    let mut i: usize = 0;
    let en = env.len();
    while i < en
        invariant
            en == env@.len(),
            i <= en,
            qse@ == qemu_set_env_key(),
            envmodel == env@.map_values(|e: (Vec<u8>, Vec<u8>)| (e.0@, e.1@)),
            new_env@.len() == i,
            forall|k: int|
                0 <= k < i ==> ((#[trigger] new_env@[k]).0@, new_env@[k].1@)
                    == env_entry_rewritten(((#[trigger] env@[k]).0@, env@[k].1@), lib@),
            added == exists|k: int|
                0 <= k < i && (#[trigger] env@[k]).0@ == qemu_set_env_key() && list_has_preload(
                    env@[k].1@,
                ),
        decreases en - i,
    {
        let key = copy_bytes(&env[i].0);
        if bytes_eq(&key, &qse) {
            let rw = rewrite_env_value(&env[i].1, lib);
            if rw.1 {
                added = true;
            }
            new_env.push((key, rw.0));
        } else {
            let val = copy_bytes(&env[i].1);
            new_env.push((key, val));
        }
        proof {
            assert(((new_env@[i as int]).0@, new_env@[i as int].1@) == env_entry_rewritten(
                ((env@[i as int]).0@, env@[i as int].1@),
                lib@,
            ));
        }
        i = i + 1;
    }
    proof {
        assert(added == env_has_preload(envmodel, lib@)) by {
            if added {
                let k = choose|k: int|
                    0 <= k < en && (#[trigger] env@[k]).0@ == qemu_set_env_key()
                        && list_has_preload(env@[k].1@);
                assert(envmodel[k].0 == qemu_set_env_key() && list_has_preload(envmodel[k].1));
            }
            if env_has_preload(envmodel, lib@) {
                let k = choose|k: int|
                    0 <= k < envmodel.len() && (#[trigger] envmodel[k]).0 == qemu_set_env_key()
                        && list_has_preload(envmodel[k].1);
                assert(env@[k].0@ == qemu_set_env_key() && list_has_preload(env@[k].1@));
            }
        }
    }
    let ghost env_found = added;
    let eflag = e_flag_bytes();
    let mut new_args: Vec<Vec<u8>> = Vec::new();
    let an = args.len();
    let mut j: usize = 0;
    while j < an
        invariant
            an == args@.len(),
            j <= an,
            eflag@ == e_flag(),
            argmodel == args@.map_values(|a: Vec<u8>| a@),
            new_args@.len() == j,
            forall|k: int|
                0 <= k < j ==> (#[trigger] new_args@[k])@ == (
                if arg_is_preload_value(argmodel, k) {
                    rewrite_one(args@[k]@, lib@)
                } else {
                    args@[k]@
                }),
            added == (env_found || exists|k: int|
                1 <= k < j && #[trigger] arg_is_preload_value(argmodel, k)),
        decreases an - j,
    {
        let is_pair_value = if j >= 1 {
            bytes_eq(&args[j - 1], &eflag) && entry_is_ld_preload(&args[j])
        } else {
            false
        };
        proof {
            assert(argmodel[j as int] == args@[j as int]@);
            if j >= 1 {
                assert(argmodel[j - 1] == args@[j - 1]@);
            }
            assert(is_pair_value == arg_is_preload_value(argmodel, j as int));
        }
        if is_pair_value {
            new_args.push(rewrite_entry(&args[j], lib));
            added = true;
        } else {
            new_args.push(copy_bytes(&args[j]));
        }
        j = j + 1;
    }
    proof {
        assert(argmodel.len() == an);
        if added && !env_found {
            let k = choose|k: int| 1 <= k < an && #[trigger] arg_is_preload_value(argmodel, k);
            assert(1 <= k < argmodel.len() && arg_is_preload_value(argmodel, k));
            assert(args_have_preload(argmodel));
        }
        if args_have_preload(argmodel) {
            let k = choose|k: int|
                1 <= k < argmodel.len() && #[trigger] arg_is_preload_value(argmodel, k);
            assert(1 <= k < an && arg_is_preload_value(argmodel, k));
            assert(added);
        }
        assert(added == (env_found || args_have_preload(argmodel)));
    }
    if !added {
        let mut preload_entry = ld_preload_prefix_bytes();
        let mut libcopy = copy_bytes(lib);
        preload_entry.append(&mut libcopy);
        new_args.insert(1, preload_entry);
        new_args.insert(1, eflag);
        proof {
            assert forall|k: int| 0 <= k < an implies !arg_is_preload_value(argmodel, k) by {
                if arg_is_preload_value(argmodel, k) {
                    assert(args_have_preload(argmodel));
                }
            }
            assert(new_args@[0]@ == args@[0]@);
            assert forall|k: int| 1 <= k < an implies (#[trigger] new_args@[k + 2])@ == args@[k]@
                by {
                assert(new_args@[k + 2] == new_args@.subrange(0, new_args@.len() as int)[k + 2]);
            }
        }
    }
    (new_args, new_env)
}

} // verus!
