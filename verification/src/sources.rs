use vstd::prelude::*;
use crate::descmodel::DescriptorPool;
use crate::descmodel::ExtensionModel;
use crate::descmodel::FileModel;
use crate::descmodel::has_file;
use crate::errors::GrpcurlError;
use crate::errors::StatusCode;
use crate::strutil::str_eq;
use crate::strutil::views_of;

verus! {

/// The reflection API version a server source has discovered: unknown
/// until the first successful reflection response latches it.
#[derive(Debug, Clone, Copy, PartialEq, Eq, Structural)]
pub enum ReflectionVersion {
    Unknown,
    V1,
    V1alpha,
}

/// The version to attempt a reflection call on: the latched one, or v1
/// first while the version is unknown.
pub fn next_attempt(cell: ReflectionVersion) -> (r: ReflectionVersion)
    ensures
        r == (if cell is Unknown {
            ReflectionVersion::V1
        } else {
            cell
        }),
        !(r is Unknown),
{
    match cell {
        ReflectionVersion::Unknown => ReflectionVersion::V1,
        v => v,
    }
}

/// Whether an error means the server does not implement the attempted
/// reflection protocol.
pub fn is_unimplemented(e: &GrpcurlError) -> (r: bool)
    ensures
        r == (e is ReflectionNotSupported || (e matches GrpcurlError::GrpcStatus(code, _) && code
            == StatusCode::Unimplemented)),
{
    match e {
        GrpcurlError::ReflectionNotSupported => true,
        GrpcurlError::GrpcStatus(code, _) => *code == StatusCode::Unimplemented,
        _ => false,
    }
}

/// Whether a failed v1 attempt should fall back to v1alpha: only while the
/// version is still unknown, and only on an unimplemented error.
pub fn should_fall_back(cell: ReflectionVersion, unimplemented: bool) -> (r: bool)
    ensures
        r == (cell is Unknown && unimplemented),
{
    matches!(cell, ReflectionVersion::Unknown) && unimplemented
}

/// The version cell after a successful reflection call on `attempted`:
/// an unknown cell latches; a latched cell never changes.
pub fn latch_version(cell: ReflectionVersion, attempted: ReflectionVersion) -> (r:
    ReflectionVersion)
    ensures
        r == (if cell is Unknown {
            attempted
        } else {
            cell
        }),
{
    match cell {
        ReflectionVersion::Unknown => attempted,
        v => v,
    }
}

/// Version latching: the cell transitions at most once. Once it is v1 or
/// v1alpha, no later success changes it; from unknown it moves to the
/// attempted version.
pub proof fn lemma_version_latches_once(cell: ReflectionVersion, a1: ReflectionVersion, a2:
    ReflectionVersion)
    ensures
        !(cell is Unknown) ==> (if cell is Unknown {
            a1
        } else {
            cell
        }) == cell,
        (if (if cell is Unknown {
            a1
        } else {
            cell
        }) is Unknown {
            a2
        } else {
            (if cell is Unknown {
                a1
            } else {
                cell
            })
        }) == (if cell is Unknown {
            (if a1 is Unknown {
                a2
            } else {
                a1
            })
        } else {
            cell
        }),
{
}

/// Descriptor-source composition: the composite's symbol lookup is the
/// reflection source's on success, the file source's on any failure.
pub fn composite_find<T>(primary: Result<T, GrpcurlError>, fallback: Result<T, GrpcurlError>) -> (r:
    Result<T, GrpcurlError>)
    ensures
        primary is Ok ==> r == primary,
        primary is Err ==> r == fallback,
{
    match primary {
        Ok(v) => Ok(v),
        Err(_) => fallback,
    }
}

/// Descriptor-source composition: listing services always goes to the
/// reflection source.
pub fn composite_list_services(reflection: Result<Vec<String>, GrpcurlError>) -> (r: Result<
    Vec<String>,
    GrpcurlError,
>)
    ensures
        r == reflection,
{
    reflection
}

/// Whether some extension among the first `n` carries this number.
pub open spec fn exts_have_number(exts: Seq<ExtensionModel>, num: int) -> bool {
    exists|j: int| 0 <= j < exts.len() && (#[trigger] exts[j]).number as int == num
}

/// The merged extensions: everything from the reflection source, then the
/// file source's entries whose numbers the reflection source did not
/// cover, up to position `n`.
pub open spec fn merged_exts_upto(refl: Seq<ExtensionModel>, file: Seq<ExtensionModel>, n: int) -> Seq<
    ExtensionModel,
>
    decreases n,
{
    if n <= 0 {
        refl
    } else {
        merged_exts_upto(refl, file, n - 1) + (if exts_have_number(
            refl,
            file[n - 1].number as int,
        ) {
            Seq::empty()
        } else {
            seq![file[n - 1]]
        })
    }
}

/// Merge extension lists for the composite source: reflection takes
/// precedence, and file-source extensions are appended only when their
/// number is not already present.
pub fn merge_extensions(refl: Vec<ExtensionModel>, file: Vec<ExtensionModel>) -> (r: Vec<
    ExtensionModel,
>)
    ensures
        r@ == merged_exts_upto(refl@, file@, file@.len() as int),
{
    let ghost refl0 = refl@;
    let refl_len = refl.len();
    let mut out = refl;
    let ghost file0 = file@;
    let mut file = file;
    proof {
        assert(file0.subrange(0, file0.len() as int) =~= file0);
    }
    while file.len() > 0
        invariant
            refl_len == refl0.len(),
            file@.len() <= file0.len(),
            file@ == file0.subrange(file0.len() - file@.len(), file0.len() as int),
            out@ == merged_exts_upto(refl0, file0, file0.len() - file@.len()),
            out@.subrange(0, refl0.len() as int) == refl0,
            refl0.len() <= out@.len(),
        decreases file@.len(),
    {
        let ghost gi: int = file0.len() - file@.len();
        let x = file.remove(0);
        proof {
            assert(file0.subrange(gi, file0.len() as int)[0] == file0[gi]);
            assert(file0.subrange(gi, file0.len() as int).remove(0) =~= file0.subrange(
                gi + 1,
                file0.len() as int,
            ));
        }
        let mut present = false;
        let mut j: usize = 0;
        while j < refl_len
            invariant
                0 <= j <= refl_len,
                refl_len == refl0.len(),
                refl0.len() <= out@.len(),
                out@.subrange(0, refl0.len() as int) == refl0,
                present == exists|k: int|
                    0 <= k < j && (#[trigger] refl0[k]).number as int == x.number as int,
            decreases refl_len - j,
        {
            proof {
                assert(out@.subrange(0, refl0.len() as int)[j as int] == refl0[j as int]);
            }
            if out[j].number == x.number {
                present = true;
            }
            j = j + 1;
        }
        proof {
            assert(present == exts_have_number(refl0, x.number as int));
        }
        if !present {
            out.push(x);
            proof {
                assert(out@.subrange(0, refl0.len() as int) =~= refl0);
            }
        }
        proof {
            assert(out@ =~= merged_exts_upto(refl0, file0, gi + 1));
        }
    }
    proof {
        assert(file0.len() - file@.len() == file0.len() as int);
    }
    out
}

/// Whether a file in the batch carries this path.
pub open spec fn batch_has_name(batch: Seq<FileModel>, name: Seq<char>) -> bool {
    exists|j: int| 0 <= j < batch.len() && (#[trigger] batch[j]).name@ == name
}

/// Whether the batch holds a file with the given path.
fn batch_contains(batch: &Vec<FileModel>, name: &str) -> (r: bool)
    ensures
        r == batch_has_name(batch@, name@),
{
    let mut j: usize = 0;
    while j < batch.len()
        invariant
            0 <= j <= batch@.len(),
            forall|k: int| 0 <= k < j ==> (#[trigger] batch@[k]).name@ != name@,
        decreases batch@.len() - j,
    {
        if str_eq(batch[j].name.as_str(), name) {
            proof {
                assert(batch@[j as int].name@ == name@);
            }
            return true;
        }
        j = j + 1;
    }
    false
}

/// The dependencies of one file that are neither in the pool nor in the
/// batch, among its first `n` dependencies, in order.
pub open spec fn file_missing_deps(
    pool: Seq<FileModel>,
    batch: Seq<FileModel>,
    f: FileModel,
    n: int,
) -> Seq<Seq<char>>
    decreases n,
{
    if n <= 0 {
        Seq::empty()
    } else {
        file_missing_deps(pool, batch, f, n - 1) + (if !has_file(pool, f.dependencies@[n - 1]@)
            && !batch_has_name(batch, f.dependencies@[n - 1]@) {
            seq![f.dependencies@[n - 1]@]
        } else {
            Seq::empty()
        })
    }
}

/// The dependencies of the first `n` batch files that are neither in the
/// pool nor in the batch, in order.
pub open spec fn batch_missing_deps(pool: Seq<FileModel>, batch: Seq<FileModel>, n: int) -> Seq<
    Seq<char>,
>
    decreases n,
{
    if n <= 0 {
        Seq::empty()
    } else {
        batch_missing_deps(pool, batch, n - 1) + file_missing_deps(
            pool,
            batch,
            batch[n - 1],
            batch[n - 1].dependencies@.len() as int,
        )
    }
}

/// The dependencies of a batch of incoming file descriptors that must be
/// fetched before insertion: those that are neither already in the pool
/// nor in the batch itself, in order of appearance.
pub fn missing_dependencies(pool: &DescriptorPool, batch: &Vec<FileModel>) -> (r: Vec<String>)
    ensures
        views_of(r@) == batch_missing_deps(pool.files@, batch@, batch@.len() as int),
{
    let mut out: Vec<String> = Vec::new();
    let mut i: usize = 0;
    proof {
        assert(views_of(out@) =~= batch_missing_deps(pool.files@, batch@, 0));
    }
    while i < batch.len()
        invariant
            0 <= i <= batch@.len(),
            views_of(out@) == batch_missing_deps(pool.files@, batch@, i as int),
        decreases batch@.len() - i,
    {
        let f = &batch[i];
        let mut d: usize = 0;
        proof {
            assert(views_of(out@) =~= batch_missing_deps(pool.files@, batch@, i as int)
                + file_missing_deps(pool.files@, batch@, batch@[i as int], 0));
        }
        while d < f.dependencies.len()
            invariant
                0 <= d <= f.dependencies@.len(),
                0 <= i < batch@.len(),
                f == batch@[i as int],
                views_of(out@) == batch_missing_deps(pool.files@, batch@, i as int)
                    + file_missing_deps(pool.files@, batch@, batch@[i as int], d as int),
            decreases f.dependencies@.len() - d,
        {
            let dep = &f.dependencies[d];
            let in_pool = pool.get_file_by_name(dep.as_str()).is_some();
            let in_batch = batch_contains(batch, dep.as_str());
            if !in_pool && !in_batch {
                let ghost prev = out@;
                out.push(dep.clone());
                proof {
                    assert(views_of(out@) =~= views_of(prev).push(
                        batch@[i as int].dependencies@[d as int]@,
                    ));
                }
            }
            proof {
                assert(views_of(out@) =~= batch_missing_deps(pool.files@, batch@, i as int)
                    + file_missing_deps(pool.files@, batch@, batch@[i as int], d as int + 1));
            }
            d = d + 1;
        }
        i = i + 1;
    }
    out
}

} // verus!
