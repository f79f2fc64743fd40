use vstd::prelude::*;
use crate::descmodel::DescriptorPool;
use crate::descmodel::FileModel;
use crate::descmodel::file_in_pool;
use crate::descmodel::has_file;
use crate::strutil::str_eq;
use crate::strutil::views_of;

verus! {

/// Whether the list holds a string with these characters.
pub open spec fn name_in(names: Seq<String>, name: Seq<char>) -> bool {
    exists|i: int| 0 <= i < names.len() && (#[trigger] names[i])@ == name
}

/// Whether the list holds the given name.
fn contains_name(v: &Vec<String>, name: &str) -> (r: bool)
    ensures
        r == name_in(v@, name@),
{
    let mut i: usize = 0;
    while i < v.len()
        invariant
            0 <= i <= v@.len(),
            forall|j: int| 0 <= j < i ==> (#[trigger] v@[j])@ != name@,
        decreases v@.len() - i,
    {
        if str_eq(v[i].as_str(), name) {
            proof {
                assert(v@[i as int]@ == name@);
            }
            return true;
        }
        i = i + 1;
    }
    false
}

/// Every listed name is the path of a pool file.
pub open spec fn all_in_pool(pool: Seq<FileModel>, names: Seq<String>) -> bool {
    forall|i: int| 0 <= i < names.len() ==> has_file(pool, (#[trigger] names[i])@)
}

/// Appending to a list keeps every name it held.
proof fn lemma_name_in_grow(a: Seq<String>, b: Seq<String>, x: Seq<char>)
    requires
        a.len() <= b.len(),
        b.subrange(0, a.len() as int) == a,
        name_in(a, x),
    ensures
        name_in(b, x),
{
    let i = choose|i: int| 0 <= i < a.len() && (#[trigger] a[i])@ == x;
    assert(b.subrange(0, a.len() as int)[i] == b[i]);
    assert(b[i]@ == x);
}

/// Some pool file carries this name and has every resolvable dependency in
/// `listed`.
pub open spec fn file_deps_listed(
    pool: Seq<FileModel>,
    name: Seq<char>,
    listed: Seq<String>,
) -> bool {
    exists|fi: int|
        #![trigger pool[fi].name]
        0 <= fi < pool.len() && pool[fi].name@ == name && (forall|d: int|
            0 <= d < pool[fi].dependencies@.len() ==> (has_file(
                pool,
                (#[trigger] pool[fi].dependencies@[d])@,
            ) ==> name_in(listed, pool[fi].dependencies@[d]@)))
}

/// The recorded names are exactly the output names and the visit stack.
pub open spec fn covers(expanded: Seq<String>, out: Seq<String>, stack: Seq<Seq<char>>) -> bool {
    forall|x: Seq<char>| #![auto] name_in(expanded, x) <==> (name_in(out, x) || stack.contains(x))
}

/// A dependency rank: every resolvable dependency ranks strictly below
/// its dependent. Such a rank exists exactly when the dependency graph is
/// acyclic.
pub open spec fn ranked(files: Seq<FileModel>, rank: Map<Seq<char>, int>) -> bool {
    forall|i: int, d: int|
        0 <= i < files.len() && 0 <= d < files[i].dependencies@.len() && has_file(
            files,
            (#[trigger] files[i].dependencies@[d])@,
        ) ==> rank[files[i].dependencies@[d]@] < rank[files[i].name@]
}

/// Whether the dependency graph among the pool's files is acyclic: some
/// rank orders every resolvable dependency below its dependent.
pub open spec fn pool_acyclic(files: Seq<FileModel>) -> bool {
    exists|rank: Map<Seq<char>, int>| #[trigger] ranked(files, rank)
}

/// Every listed file's resolvable dependencies appear among the earlier
/// entries: the output is topologically ordered, dependencies first.
pub open spec fn deps_precede(pool: Seq<FileModel>, out: Seq<String>) -> bool {
    forall|i: int|
        0 <= i < out.len() ==> file_deps_listed(pool, (#[trigger] out[i])@, out.subrange(0, i))
}

/// Appending a fresh name keeps a name list free of duplicates.
proof fn lemma_no_dup_push(s: Seq<String>, x: String)
    requires
        views_of(s).no_duplicates(),
        !name_in(s, x@),
    ensures
        views_of(s.push(x)).no_duplicates(),
{
    let v2 = views_of(s.push(x));
    assert(v2 =~= views_of(s).push(x@));
    assert forall|i: int, j: int| 0 <= i < v2.len() && 0 <= j < v2.len() && i != j implies v2[i]
        != v2[j] by {
        if i < s.len() && j < s.len() {
        } else if i < s.len() {
            assert(s[i]@ == v2[i]);
            assert(!name_in(s, x@));
        } else if j < s.len() {
            assert(s[j]@ == v2[j]);
            assert(!name_in(s, x@));
        }
    }
}

/// Every listed file has some pool file of its name whose resolvable
/// dependencies all stand in `expanded`.
pub open spec fn deps_recorded(
    pool: Seq<FileModel>,
    out: Seq<String>,
    expanded: Seq<String>,
) -> bool {
    forall|i: int| 0 <= i < out.len() ==> file_deps_listed(pool, (#[trigger] out[i])@, expanded)
}

/// Growing the listed names preserves a file's record.
proof fn lemma_file_deps_listed_grow(
    pool: Seq<FileModel>,
    name: Seq<char>,
    exp1: Seq<String>,
    exp2: Seq<String>,
)
    requires
        file_deps_listed(pool, name, exp1),
        exp1.len() <= exp2.len(),
        exp2.subrange(0, exp1.len() as int) == exp1,
    ensures
        file_deps_listed(pool, name, exp2),
{
    let fi = choose|fi: int|
        #![trigger pool[fi].name]
        0 <= fi < pool.len() && pool[fi].name@ == name && (forall|d: int|
            0 <= d < pool[fi].dependencies@.len() ==> (has_file(
                pool,
                (#[trigger] pool[fi].dependencies@[d])@,
            ) ==> name_in(exp1, pool[fi].dependencies@[d]@)));
    assert forall|d: int|
        0 <= d < pool[fi].dependencies@.len() && has_file(
            pool,
            (#[trigger] pool[fi].dependencies@[d])@,
        ) implies name_in(exp2, pool[fi].dependencies@[d]@) by {
        lemma_name_in_grow(exp1, exp2, pool[fi].dependencies@[d]@);
    }
}

/// Growing the listed names preserves every record.
proof fn lemma_deps_recorded_grow(
    pool: Seq<FileModel>,
    out: Seq<String>,
    exp1: Seq<String>,
    exp2: Seq<String>,
)
    requires
        deps_recorded(pool, out, exp1),
        exp1.len() <= exp2.len(),
        exp2.subrange(0, exp1.len() as int) == exp1,
    ensures
        deps_recorded(pool, out, exp2),
{
    assert forall|i: int| 0 <= i < out.len() implies file_deps_listed(
        pool,
        (#[trigger] out[i])@,
        exp2,
    ) by {
        lemma_file_deps_listed_grow(pool, out[i]@, exp1, exp2);
    }
}

/// Appending one recorded file keeps every record.
proof fn lemma_deps_recorded_push(
    pool: Seq<FileModel>,
    out: Seq<String>,
    expanded: Seq<String>,
    x: String,
)
    requires
        deps_recorded(pool, out, expanded),
        file_deps_listed(pool, x@, expanded),
    ensures
        deps_recorded(pool, out.push(x), expanded),
{
    let out2 = out.push(x);
    assert forall|i: int| 0 <= i < out2.len() implies file_deps_listed(
        pool,
        (#[trigger] out2[i])@,
        expanded,
    ) by {
        if i < out.len() {
            assert(out2[i] == out[i]);
        } else {
            assert(out2[i] == x);
        }
    }
}

/// A distinct list of pool file names is no longer than the pool.
proof fn lemma_expanded_bound(pool: Seq<FileModel>, names: Seq<String>)
    requires
        views_of(names).no_duplicates(),
        all_in_pool(pool, names),
    ensures
        names.len() <= pool.len(),
{
    broadcast use vstd::seq_lib::group_seq_properties;

    let vs = views_of(names);
    let pool_names = pool.map_values(|f: FileModel| f.name@);
    vs.unique_seq_to_set();
    pool_names.lemma_cardinality_of_set();
    assert forall|x: Seq<char>| vs.to_set().contains(x) implies pool_names.to_set().contains(
        x,
    ) by {
        let i = choose|i: int| 0 <= i < vs.len() && vs[i] == x;
        assert(names[i]@ == x);
        assert(has_file(pool, x));
        let fi = choose|fi: int| 0 <= fi < pool.len() && (#[trigger] pool[fi]).name@ == x;
        assert(pool_names[fi] == x);
        assert(pool_names.contains(x));
    }
    vstd::set_lib::lemma_len_subset(vs.to_set(), pool_names.to_set());
}

/// Visit one file: record it, visit its resolvable dependencies first,
/// then append it to the output, depth first.
#[verifier::rlimit(100)]
fn collect_file(
    pool: &DescriptorPool,
    name: &str,
    expanded: &mut Vec<String>,
    out: &mut Vec<String>,
    stack: Ghost<Seq<Seq<char>>>,
    rank: Ghost<Map<Seq<char>, int>>,
)
    requires
        views_of(old(expanded)@).no_duplicates(),
        all_in_pool(pool.files@, old(expanded)@),
        deps_recorded(pool.files@, old(out)@, old(expanded)@),
        covers(old(expanded)@, old(out)@, stack@),
        views_of(old(out)@).no_duplicates(),
        forall|x: Seq<char>| #![auto] stack@.contains(x) ==> !name_in(old(out)@, x),
        ranked(pool.files@, rank@) ==> deps_precede(pool.files@, old(out)@),
        ranked(pool.files@, rank@) && has_file(pool.files@, name@) ==> forall|x: Seq<char>|
            #![auto]
            stack@.contains(x) ==> rank@[x] > rank@[name@],
    ensures
        old(expanded)@.len() <= final(expanded)@.len(),
        final(expanded)@.subrange(0, old(expanded)@.len() as int) == old(expanded)@,
        old(out)@.len() <= final(out)@.len(),
        final(out)@.subrange(0, old(out)@.len() as int) == old(out)@,
        views_of(final(expanded)@).no_duplicates(),
        all_in_pool(pool.files@, final(expanded)@),
        deps_recorded(pool.files@, final(out)@, final(expanded)@),
        covers(final(expanded)@, final(out)@, stack@),
        has_file(pool.files@, name@) ==> name_in(final(expanded)@, name@),
        views_of(final(out)@).no_duplicates(),
        forall|x: Seq<char>| #![auto] stack@.contains(x) ==> !name_in(final(out)@, x),
        ranked(pool.files@, rank@) ==> deps_precede(pool.files@, final(out)@),
    decreases pool.files@.len() + 1 - old(expanded)@.len(),
{
    proof {
        lemma_expanded_bound(pool.files@, expanded@);
    }
    if contains_name(expanded, name) {
        proof {
            assert(expanded@.subrange(0, expanded@.len() as int) =~= expanded@);
            assert(out@.subrange(0, out@.len() as int) =~= out@);
        }
        return ;
    }
    let file = match pool.get_file_by_name(name) {
        Some(f) => f,
        None => {
            proof {
                assert(expanded@.subrange(0, expanded@.len() as int) =~= expanded@);
                assert(out@.subrange(0, out@.len() as int) =~= out@);
            }
            return ;
        },
    };
    let ghost exp0 = expanded@;
    let ghost out0 = out@;
    expanded.push(name.to_owned());
    proof {
        assert(views_of(expanded@) =~= views_of(exp0).push(name@));
        assert(expanded@.subrange(0, exp0.len() as int) =~= exp0);
        assert forall|x: Seq<char>| #![auto] name_in(expanded@, x) implies (name_in(out0, x)
            || stack@.push(name@).contains(x)) by {
            let i = choose|i: int| 0 <= i < expanded@.len() && (#[trigger] expanded@[i])@ == x;
            if i < exp0.len() {
                assert(exp0[i]@ == x);
                assert(name_in(exp0, x));
                if stack@.contains(x) {
                    let k = choose|k: int| 0 <= k < stack@.len() && stack@[k] == x;
                    assert(stack@.push(name@)[k] == x);
                }
            } else {
                assert(expanded@[i]@ == name@);
                assert(stack@.push(name@)[stack@.len() as int] == name@);
            }
        }
        assert forall|x: Seq<char>| #![auto] (name_in(out0, x) || stack@.push(name@).contains(
            x,
        )) implies name_in(expanded@, x) by {
            if name_in(out0, x) {
                assert(name_in(old(out)@, x));
                assert(name_in(old(expanded)@, x));
                lemma_name_in_grow(exp0, expanded@, x);
            } else {
                let k = choose|k: int|
                    0 <= k < stack@.push(name@).len() && stack@.push(name@)[k] == x;
                if k < stack@.len() {
                    assert(stack@[k] == x);
                    assert(stack@.contains(x));
                    assert(name_in(old(expanded)@, x));
                    lemma_name_in_grow(exp0, expanded@, x);
                } else {
                    assert(x == name@);
                    assert(expanded@[exp0.len() as int]@ == name@);
                }
            }
        }
        assert(covers(expanded@, out0, stack@.push(name@)));
        lemma_deps_recorded_grow(pool.files@, out0, exp0, expanded@);
    }
    let ghost exp1 = expanded@;
    proof {
        assert(exp1[exp0.len() as int]@ == name@);
        assert(name_in(exp1, name@));
        assert(!name_in(out0, name@));
        assert forall|x: Seq<char>| #![auto] stack@.push(name@).contains(x) implies !name_in(
            out0,
            x,
        ) by {
            let k = choose|k: int|
                0 <= k < stack@.push(name@).len() && stack@.push(name@)[k] == x;
            if k < stack@.len() {
                assert(stack@[k] == x);
                assert(stack@.contains(x));
            } else {
                assert(x == name@);
            }
        }
    }
    let deps_len = file.dependencies.len();
    let mut d: usize = 0;
    while d < deps_len
        invariant
            0 <= d <= deps_len,
            deps_len == file.dependencies@.len(),
            file_in_pool(pool.files@, *file),
            file.name@ == name@,
            exp1.len() <= expanded@.len(),
            expanded@.subrange(0, exp1.len() as int) == exp1,
            exp1.len() == exp0.len() + 1,
            exp0.len() == old(expanded)@.len(),
            exp1.subrange(0, exp0.len() as int) == exp0,
            name_in(exp1, name@),
            out0.len() <= out@.len(),
            out@.subrange(0, out0.len() as int) == out0,
            out0 == old(out)@,
            views_of(expanded@).no_duplicates(),
            all_in_pool(pool.files@, expanded@),
            deps_recorded(pool.files@, out@, expanded@),
            covers(expanded@, out@, stack@.push(name@)),
            !name_in(exp0, name@),
            views_of(out@).no_duplicates(),
            forall|x: Seq<char>| #![auto] stack@.push(name@).contains(x) ==> !name_in(out@, x),
            ranked(pool.files@, rank@) ==> deps_precede(pool.files@, out@),
            ranked(pool.files@, rank@) && has_file(pool.files@, name@) ==> forall|x: Seq<char>|
                #![auto]
                stack@.contains(x) ==> rank@[x] > rank@[name@],
            forall|j: int|
                0 <= j < d ==> (has_file(pool.files@, (#[trigger] file.dependencies@[j])@)
                    ==> name_in(expanded@, file.dependencies@[j]@)),
        decreases deps_len - d,
    {
        let ghost exp_before = expanded@;
        proof {
            lemma_expanded_bound(pool.files@, expanded@);
            if ranked(pool.files@, rank@) && has_file(
                pool.files@,
                file.dependencies@[d as int]@,
            ) {
                let files = pool.files@;
                let fi = choose|fi: int| 0 <= fi < files.len() && #[trigger] files[fi] == *file;
                assert(files[fi].dependencies@[d as int] == file.dependencies@[d as int]);
                assert(rank@[file.dependencies@[d as int]@] < rank@[name@]);
                assert forall|x: Seq<char>| #![auto] stack@.push(name@).contains(x) implies rank@[x]
                    > rank@[file.dependencies@[d as int]@] by {
                    let k = choose|k: int|
                        0 <= k < stack@.push(name@).len() && stack@.push(name@)[k] == x;
                    if k < stack@.len() {
                        assert(stack@[k] == x);
                        assert(stack@.contains(x));
                    } else {
                        assert(x == name@);
                    }
                }
            }
        }
        collect_file(
            pool,
            file.dependencies[d].as_str(),
            expanded,
            out,
            Ghost(stack@.push(name@)),
            rank,
        );
        proof {
            assert forall|j: int|
                0 <= j < d + 1 && has_file(
                    pool.files@,
                    (#[trigger] file.dependencies@[j])@,
                ) implies name_in(expanded@, file.dependencies@[j]@) by {
                if j < d {
                    lemma_name_in_grow(exp_before, expanded@, file.dependencies@[j]@);
                }
            }
            assert(expanded@.subrange(0, exp1.len() as int) =~= exp1);
            assert(out@.subrange(0, out0.len() as int) =~= out0);
        }
        d = d + 1;
    }
    let ghost out_mid = out@;
    let ghost exp_end = expanded@;
    out.push(name.to_owned());
    proof {
        let files = pool.files@;
        let fi = choose|fi: int| 0 <= fi < files.len() && #[trigger] files[fi] == *file;
        assert(files[fi].name@ == name@);
        assert forall|dd: int|
            0 <= dd < files[fi].dependencies@.len() && has_file(
                files,
                (#[trigger] files[fi].dependencies@[dd])@,
            ) implies name_in(exp_end, files[fi].dependencies@[dd]@) by {
            assert(file.dependencies@[dd] == files[fi].dependencies@[dd]);
        }
        assert(file_deps_listed(files, name@, exp_end));
        lemma_deps_recorded_push(files, out_mid, exp_end, out@[out_mid.len() as int]);
        assert(out@ =~= out_mid.push(out@[out_mid.len() as int]));
        assert(out@.subrange(0, out_mid.len() as int) =~= out_mid);
        assert forall|x: Seq<char>| #![auto] name_in(exp_end, x) implies (name_in(out@, x)
            || stack@.contains(x)) by {
            if name_in(out_mid, x) {
                lemma_name_in_grow(out_mid, out@, x);
            } else {
                let k = choose|k: int|
                    0 <= k < stack@.push(name@).len() && stack@.push(name@)[k] == x;
                if k < stack@.len() {
                    assert(stack@.contains(x));
                } else {
                    assert(x == name@);
                    assert(out@[out_mid.len() as int]@ == name@);
                    assert(name_in(out@, x));
                }
            }
        }
        assert forall|x: Seq<char>| #![auto] (name_in(out@, x) || stack@.contains(x)) implies
            name_in(exp_end, x) by {
            if name_in(out@, x) {
                let i = choose|i: int| 0 <= i < out@.len() && (#[trigger] out@[i])@ == x;
                if i < out_mid.len() {
                    assert(out_mid[i]@ == x);
                    assert(name_in(out_mid, x));
                } else {
                    assert(x == name@);
                    lemma_name_in_grow(exp1, exp_end, name@);
                }
            } else {
                let k = choose|k: int| 0 <= k < stack@.len() && stack@[k] == x;
                assert(stack@.push(name@)[k] == x);
            }
        }
        assert(covers(exp_end, out@, stack@));
        assert(out@.subrange(0, out0.len() as int) =~= out0);
        assert(exp_end.subrange(0, exp0.len() as int) =~= exp0);
        // The pushed name is new to the output, so the list stays
        // duplicate-free and disjoint from the ancestors.
        assert(!stack@.contains(name@)) by {
            if stack@.contains(name@) {
                assert(name_in(exp0, name@));
            }
        }
        assert(!name_in(out_mid, name@)) by {
            assert(stack@.push(name@)[stack@.len() as int] == name@);
        }
        assert(out@[out_mid.len() as int]@ == name@);
        lemma_no_dup_push(out_mid, out@[out_mid.len() as int]);
        assert forall|x: Seq<char>| #![auto] stack@.contains(x) implies !name_in(out@, x) by {
            if name_in(out@, x) {
                let i = choose|i: int| 0 <= i < out@.len() && (#[trigger] out@[i])@ == x;
                if i < out_mid.len() {
                    assert(out_mid[i]@ == x);
                    assert(name_in(out_mid, x));
                    let k = choose|k: int| 0 <= k < stack@.len() && stack@[k] == x;
                    assert(stack@.push(name@)[k] == x);
                } else {
                    assert(x == name@);
                }
            }
        }
        // Under an acyclic rank, no dependency of the pushed file can be
        // an ancestor on the stack, so all of them already stand earlier
        // in the output.
        if ranked(files, rank@) {
            assert forall|dd: int|
                0 <= dd < files[fi].dependencies@.len() && has_file(
                    files,
                    (#[trigger] files[fi].dependencies@[dd])@,
                ) implies name_in(out_mid, files[fi].dependencies@[dd]@) by {
                let dv = files[fi].dependencies@[dd]@;
                assert(rank@[dv] < rank@[name@]);
                assert(name_in(exp_end, dv));
                if !name_in(out_mid, dv) {
                    assert(stack@.push(name@).contains(dv));
                    let k = choose|k: int|
                        0 <= k < stack@.push(name@).len() && stack@.push(name@)[k] == dv;
                    if k < stack@.len() {
                        assert(stack@[k] == dv);
                        assert(stack@.contains(dv));
                        assert(rank@[dv] > rank@[name@]);
                    } else {
                        assert(dv == name@);
                    }
                }
            }
            assert(file_deps_listed(files, name@, out_mid));
            assert forall|i: int| 0 <= i < out@.len() implies file_deps_listed(
                files,
                (#[trigger] out@[i])@,
                out@.subrange(0, i),
            ) by {
                if i < out_mid.len() {
                    assert(out@[i] == out_mid[i]);
                    assert(out@.subrange(0, i) =~= out_mid.subrange(0, i));
                    assert(file_deps_listed(files, out_mid[i]@, out_mid.subrange(0, i)));
                } else {
                    assert(out@.subrange(0, i) =~= out_mid);
                }
            }
            assert(deps_precede(files, out@));
        }
    }
}

/// The output lists, for each of its files, a pool file of that name whose
/// resolvable dependencies are all listed too: the transitive closure is
/// complete.
pub open spec fn closure_complete(pool: Seq<FileModel>, out: Seq<String>) -> bool {
    deps_recorded(pool, out, out)
}

/// When everything recorded is listed, a file's record closes over the
/// output itself.
proof fn lemma_file_deps_listed_out(
    pool: Seq<FileModel>,
    name: Seq<char>,
    out: Seq<String>,
    expanded: Seq<String>,
)
    requires
        file_deps_listed(pool, name, expanded),
        forall|x: Seq<char>| #![auto] name_in(expanded, x) ==> name_in(out, x),
    ensures
        file_deps_listed(pool, name, out),
{
    let fi = choose|fi: int|
        #![trigger pool[fi].name]
        0 <= fi < pool.len() && pool[fi].name@ == name && (forall|d: int|
            0 <= d < pool[fi].dependencies@.len() ==> (has_file(
                pool,
                (#[trigger] pool[fi].dependencies@[d])@,
            ) ==> name_in(expanded, pool[fi].dependencies@[d]@)));
    assert forall|d: int|
        0 <= d < pool[fi].dependencies@.len() && has_file(
            pool,
            (#[trigger] pool[fi].dependencies@[d])@,
        ) implies name_in(out, pool[fi].dependencies@[d]@) by {}
}

/// The files to export for the given root file names: each root's file
/// and the transitive closure of its dependencies, each file once, and —
/// whenever the dependency graph is acyclic, as real descriptor pools
/// are — every dependency before its dependents.
pub fn transitive_file_closure(pool: &DescriptorPool, roots: &Vec<String>) -> (r: Vec<String>)
    ensures
        closure_complete(pool.files@, r@),
        all_in_pool(pool.files@, r@),
        views_of(r@).no_duplicates(),
        pool_acyclic(pool.files@) ==> deps_precede(pool.files@, r@),
        forall|i: int|
            0 <= i < roots@.len() && has_file(pool.files@, (#[trigger] roots@[i])@) ==> name_in(
                r@,
                roots@[i]@,
            ),
{
    let ghost rank: Map<Seq<char>, int> = if pool_acyclic(pool.files@) {
        choose|rk: Map<Seq<char>, int>| ranked(pool.files@, rk)
    } else {
        Map::empty()
    };
    proof {
        if pool_acyclic(pool.files@) {
            assert(ranked(pool.files@, rank));
        }
    }
    let mut expanded: Vec<String> = Vec::new();
    let mut out: Vec<String> = Vec::new();
    let mut i: usize = 0;
    while i < roots.len()
        invariant
            0 <= i <= roots@.len(),
            views_of(expanded@).no_duplicates(),
            all_in_pool(pool.files@, expanded@),
            deps_recorded(pool.files@, out@, expanded@),
            covers(expanded@, out@, Seq::empty()),
            views_of(out@).no_duplicates(),
            pool_acyclic(pool.files@) ==> ranked(pool.files@, rank),
            ranked(pool.files@, rank) ==> deps_precede(pool.files@, out@),
            forall|j: int|
                0 <= j < i && has_file(pool.files@, (#[trigger] roots@[j])@) ==> name_in(
                    expanded@,
                    roots@[j]@,
                ),
        decreases roots@.len() - i,
    {
        let ghost exp_before = expanded@;
        collect_file(
            pool,
            roots[i].as_str(),
            &mut expanded,
            &mut out,
            Ghost(Seq::empty()),
            Ghost(rank),
        );
        proof {
            assert forall|j: int|
                0 <= j < i + 1 && has_file(pool.files@, (#[trigger] roots@[j])@) implies name_in(
                expanded@,
                roots@[j]@,
            ) by {
                if j < i {
                    lemma_name_in_grow(exp_before, expanded@, roots@[j]@);
                }
            }
        }
        i = i + 1;
    }
    proof {
        assert forall|i2: int| 0 <= i2 < out@.len() implies file_deps_listed(
            pool.files@,
            (#[trigger] out@[i2])@,
            out@,
        ) by {
            lemma_file_deps_listed_out(pool.files@, out@[i2]@, out@, expanded@);
        }
        assert forall|i2: int| 0 <= i2 < out@.len() implies has_file(
            pool.files@,
            (#[trigger] out@[i2])@,
        ) by {
            assert(name_in(out@, out@[i2]@));
            assert(name_in(expanded@, out@[i2]@));
            let k = choose|k: int|
                0 <= k < expanded@.len() && (#[trigger] expanded@[k])@ == out@[i2]@;
            assert(has_file(pool.files@, expanded@[k]@));
        }
    }
    out
}

} // verus!
