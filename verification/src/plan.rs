use vstd::prelude::*;
use crate::chunks::chunk_size_spec;
use crate::chunks::chunks_of;
use crate::chunks::lemma_chunk_boundaries;
use crate::chunks::lemma_chunks_count;
use crate::chunks::seq_views;
use crate::chunks::split_into_chunks;
use crate::keys::base_name;
use crate::keys::base_name_spec;
use crate::keys::derive_directory_key;
use crate::keys::dir_key_spec;
use crate::keys::opt_view;
use crate::outcome::UploadTask;

verus! {

/// The most workers a batch ever uses, and so the most chunks the
/// partitioner produces.
pub const MAX_WORKERS: usize = 30;

/// Why a batch could not start. These are the fatal, pre-dispatch errors:
/// they are reported once and no upload is attempted.
#[derive(Debug, Clone, PartialEq, Eq)]
pub enum BatchError {
    EmptyDirectory,
}

/// A correct plan for a directory batch: the chunks cut the discovered file
/// list exactly as the partitioner's ceiling rule says, and each task pairs
/// its file with the key the key deriver gives that file.
pub open spec fn planned_correctly(
    chunks: Seq<Seq<UploadTask>>,
    dest: Option<Seq<u8>>,
    root: Seq<u8>,
    files: Seq<Seq<u8>>,
    m: int,
) -> bool {
    let parts = chunks_of(files, chunk_size_spec(files.len() as int, m));
    &&& chunks.len() == parts.len()
    &&& forall|j: int| 0 <= j < chunks.len() ==> (#[trigger] chunks[j]).len() == parts[j].len()
    &&& forall|j: int, p: int|
        #![trigger chunks[j][p]]
        0 <= j < chunks.len() && 0 <= p < chunks[j].len() ==> chunks[j][p].local_path@
            == parts[j][p] && chunks[j][p].remote_key@ == dir_key_spec(
            dest,
            base_name_spec(root),
            root,
            parts[j][p],
        )
}

/// Turn the discovered file list of a directory batch into a plan: derive
/// each file's remote key in discovery order, and split the resulting task
/// list into at most `max_workers` contiguous chunks. An empty file list is
/// the one fatal error here; otherwise the plan covers every file exactly
/// once.
pub fn plan_batch(
    files: Vec<Vec<u8>>,
    root_path: &Vec<u8>,
    dest_prefix: Option<&Vec<u8>>,
    max_workers: usize,
) -> (r: Result<Vec<Vec<UploadTask>>, BatchError>)
    requires
        max_workers >= 1,
        files@.len() + max_workers <= usize::MAX,
    ensures
        r is Err <==> files@.len() == 0,
        r matches Err(e) ==> e is EmptyDirectory,
        r matches Ok(chunks) ==> planned_correctly(
            seq_views(chunks@),
            opt_view(dest_prefix),
            root_path@,
            seq_views(files@),
            max_workers as int,
        ),
{
    let ghost fv = seq_views(files@);
    if files.len() == 0 {
        return Err(BatchError::EmptyDirectory);
    }
    let dir_name = base_name(root_path);
    let mut files = files;
    let mut tasks: Vec<UploadTask> = Vec::new();
    let mut i: usize = 0;
    let ghost n = fv.len();
    while files.len() > 0
        invariant
            n == fv.len(),
            n + max_workers <= usize::MAX,
            max_workers >= 1,
            i <= n,
            i + files@.len() == n,
            seq_views(files@) =~= fv.skip(i as int),
            dir_name@ == base_name_spec(root_path@),
            tasks@.len() == i,
            forall|k: int|
                0 <= k < i ==> (#[trigger] tasks@[k]).local_path@ == fv[k]
                    && tasks@[k].remote_key@ == dir_key_spec(
                    opt_view(dest_prefix),
                    base_name_spec(root_path@),
                    root_path@,
                    fv[k],
                ),
        decreases files@.len(),
    {
        let ghost pre = files@;
        let f = files.remove(0);
        proof {
            assert(f@ == seq_views(pre)[0]);
            assert(seq_views(files@) =~= seq_views(pre).skip(1));
            assert(seq_views(pre).skip(1) =~= fv.skip(i + 1));
        }
        let key = derive_directory_key(dest_prefix, &dir_name, root_path, &f);
        tasks.push(UploadTask { local_path: f, remote_key: key });
        i += 1;
    }
    let ghost tasks0 = tasks@;
    let chunks = split_into_chunks(tasks, max_workers);
    proof {
        let cs = chunk_size_spec(n as int, max_workers as int);
        let cv = seq_views(chunks@);
        let parts = chunks_of(fv, cs);
        assert(tasks0.len() == n);
        assert(cs >= 1) by (nonlinear_arith)
            requires
                n >= 1,
                max_workers >= 1,
                cs == (n + max_workers - 1) as int / max_workers as int,
        ;
        assert(cv =~= chunks_of(tasks0, cs));
        lemma_chunks_count::<UploadTask>(tasks0, cs);
        lemma_chunks_count::<Seq<u8>>(fv, cs);
        assert(cv.len() == chunks_of(tasks0, cs).len());
        assert(chunks_of(tasks0, cs).len() == (n + cs - 1) / cs);
        assert(chunks_of(fv, cs).len() == (n + cs - 1) / cs);
        assert(cv.len() == parts.len());
        assert forall|j: int| 0 <= j < cv.len() implies (#[trigger] cv[j]).len()
            == parts[j].len() by {
            lemma_chunk_boundaries::<UploadTask>(tasks0, cs, j);
            lemma_chunk_boundaries::<Seq<u8>>(fv, cs, j);
            assert(0 <= j * cs && (j + 1) * cs == j * cs + cs) by (nonlinear_arith)
                requires
                    j >= 0,
                    cs >= 1,
            ;
        }
        assert forall|j: int, p: int|
            #![trigger cv[j][p]]
            0 <= j < cv.len() && 0 <= p < cv[j].len() implies cv[j][p].local_path@ == parts[j][p]
            && cv[j][p].remote_key@ == dir_key_spec(
            opt_view(dest_prefix),
            base_name_spec(root_path@),
            root_path@,
            parts[j][p],
        ) by {
            lemma_chunk_boundaries::<UploadTask>(tasks0, cs, j);
            lemma_chunk_boundaries::<Seq<u8>>(fv, cs, j);
            assert(0 <= j * cs && (j + 1) * cs == j * cs + cs) by (nonlinear_arith)
                requires
                    j >= 0,
                    cs >= 1,
            ;
            assert(cv[j][p] == tasks0[j * cs + p]);
            assert(parts[j][p] == fv[j * cs + p]);
        }
    }
    Ok(chunks)
}

} // verus!
