use qiniu_upload::chunks::split_into_chunks;
use qiniu_upload::outcome::process_chunk;
use qiniu_upload::outcome::worker_step;
use qiniu_upload::outcome::TransferResult;
use qiniu_upload::outcome::UploadOutcome;
use qiniu_upload::outcome::UploadTask;
use qiniu_upload::plan::plan_batch;
use qiniu_upload::plan::BatchError;
use qiniu_upload::plan::MAX_WORKERS;
use qiniu_upload::tally::aggregate_tallies;
use qiniu_upload::tally::combine_tallies;
use qiniu_upload::tally::BatchTally;
use qiniu_upload::walk::walk_dir;
use qiniu_upload::walk::FsTree;

fn b(s: &str) -> Vec<u8> {
    s.as_bytes().to_vec()
}

fn task(path: &str, key: &str) -> UploadTask {
    UploadTask { local_path: b(path), remote_key: b(key) }
}

#[test]
fn split_preserves_order_and_elements() {
    // Partition completeness and order: concatenating the chunks gives the
    // original list back, each element exactly once.
    let list: Vec<u32> = (0..50).collect();
    let chunks = split_into_chunks(list.clone(), 7);
    let rejoined: Vec<u32> = chunks.iter().flatten().copied().collect();
    assert_eq!(rejoined, list);
    assert!(chunks.len() >= 1);
    assert!(chunks.len() <= 7);
}

#[test]
fn split_never_makes_more_chunks_than_items() {
    let list: Vec<u32> = (0..4).collect();
    let chunks = split_into_chunks(list, 30);
    assert_eq!(chunks.len(), 4);
    for c in &chunks {
        assert_eq!(c.len(), 1);
    }
}

#[test]
fn split_sixty_five_files_for_thirty_workers() {
    // Scenario: 65 files with at most 30 workers. The ceiling rule gives a
    // chunk size of 3, so the 65 files cut into 21 full chunks of 3 and a
    // last chunk of 2 — the exact boundaries, not just the counts.
    let list: Vec<u32> = (0..65).collect();
    let chunks = split_into_chunks(list.clone(), MAX_WORKERS);
    assert_eq!(chunks.len(), 22);
    for (j, c) in chunks.iter().enumerate() {
        if j < 21 {
            assert_eq!(c.len(), 3);
        } else {
            assert_eq!(c.len(), 2);
        }
        for (p, x) in c.iter().enumerate() {
            assert_eq!(*x, (j * 3 + p) as u32);
        }
    }
    let rejoined: Vec<u32> = chunks.into_iter().flatten().collect();
    assert_eq!(rejoined, list);
}

#[test]
fn walk_single_file_is_singleton() {
    let tree = FsTree::Leaf { path: b("notes.txt") };
    assert_eq!(walk_dir(tree), vec![b("notes.txt")]);
}

#[test]
fn walk_nested_directories_in_order() {
    let tree = FsTree::Dir {
        entries: vec![
            FsTree::Leaf { path: b("photos/a.jpg") },
            FsTree::Dir {
                entries: vec![
                    FsTree::Leaf { path: b("photos/sub/b.jpg") },
                    FsTree::Leaf { path: b("photos/sub/c.jpg") },
                ],
            },
            FsTree::Leaf { path: b("photos/d.jpg") },
        ],
    };
    assert_eq!(
        walk_dir(tree),
        vec![b("photos/a.jpg"), b("photos/sub/b.jpg"), b("photos/sub/c.jpg"), b("photos/d.jpg")]
    );
}

#[test]
fn walk_empty_directory_is_empty() {
    let tree = FsTree::Dir { entries: vec![] };
    assert_eq!(walk_dir(tree), Vec::<Vec<u8>>::new());
}

#[test]
fn plan_empty_directory_is_an_error() {
    let r = plan_batch(Vec::new(), &b("photos"), None, MAX_WORKERS);
    assert!(matches!(r, Err(BatchError::EmptyDirectory)));
}

#[test]
fn plan_derives_keys_and_chunks() {
    let files = vec![b("photos/a.jpg"), b("photos/sub/b.jpg")];
    let chunks = plan_batch(files, &b("photos"), None, MAX_WORKERS).unwrap();
    assert_eq!(chunks.len(), 2);
    assert_eq!(chunks[0].len(), 1);
    assert_eq!(chunks[1].len(), 1);
    assert_eq!(chunks[0][0], task("photos/a.jpg", "uploads/photos/a.jpg"));
    assert_eq!(chunks[1][0], task("photos/sub/b.jpg", "uploads/photos/sub/b.jpg"));
}

#[test]
fn plan_with_destination_prefix() {
    let files = vec![b("Photos/a.jpg")];
    let dest = b("/Backups/");
    let chunks = plan_batch(files, &b("Photos"), Some(&dest), MAX_WORKERS).unwrap();
    assert_eq!(chunks.len(), 1);
    assert_eq!(chunks[0][0], task("Photos/a.jpg", "backups/photos/a.jpg"));
}

#[test]
fn failing_file_does_not_stop_its_chunk() {
    // Scenario: one file in a batch cannot be opened; the batch still
    // processes every other file and reports n-1 successes, 1 failure,
    // with the failing file's error text in its outcome.
    let tasks = vec![
        task("d/a", "uploads/d/a"),
        task("d/b", "uploads/d/b"),
        task("d/c", "uploads/d/c"),
        task("d/d", "uploads/d/d"),
    ];
    let results = vec![
        TransferResult::Success,
        TransferResult::Failure { reason: "permission denied".to_string() },
        TransferResult::Success,
        TransferResult::Success,
    ];
    let (outcomes, tally) = process_chunk(tasks, results);
    assert_eq!(outcomes.len(), 4);
    assert_eq!(tally.success_count, 3);
    assert_eq!(tally.failure_count, 1);
    assert_eq!(
        outcomes[1],
        UploadOutcome {
            local_path: b("d/b"),
            remote_key: b("uploads/d/b"),
            result: TransferResult::Failure { reason: "permission denied".to_string() },
        }
    );
    assert_eq!(outcomes[3].result, TransferResult::Success);
}

#[test]
fn outcomes_do_not_depend_on_other_tasks_results() {
    // Failure isolation on concrete values: flipping task 0's result leaves
    // every other task's outcome unchanged.
    let tasks = vec![task("a", "k/a"), task("b", "k/b"), task("c", "k/c")];
    let ok = vec![TransferResult::Success, TransferResult::Success, TransferResult::Success];
    let mut broken = ok.clone();
    broken[0] = TransferResult::Failure { reason: "quota exceeded".to_string() };
    let (out_ok, _) = process_chunk(tasks.clone(), ok);
    let (out_broken, tally) = process_chunk(tasks, broken);
    assert_eq!(out_ok[1], out_broken[1]);
    assert_eq!(out_ok[2], out_broken[2]);
    assert_eq!(tally.success_count, 2);
    assert_eq!(tally.failure_count, 1);
}

#[test]
fn worker_step_counts_each_kind_once() {
    let mut tally = BatchTally::empty();
    let o1 = worker_step(&mut tally, task("a", "k/a"), TransferResult::Success);
    assert_eq!(o1.remote_key, b("k/a"));
    let o2 = worker_step(
        &mut tally,
        task("b", "k/b"),
        TransferResult::Failure { reason: "timeout".to_string() },
    );
    assert_eq!(o2.result, TransferResult::Failure { reason: "timeout".to_string() });
    assert_eq!(tally, BatchTally { success_count: 1, failure_count: 1 });
}

#[test]
fn tallies_sum_to_total_file_count() {
    // Tally correctness: the aggregated success and failure counts add up
    // to the number of discovered files.
    let total: usize = 65;
    let list: Vec<u64> = (0..total as u64).collect();
    let chunks = split_into_chunks(list, MAX_WORKERS);
    let mut tallies: Vec<BatchTally> = Vec::new();
    for c in chunks {
        let tasks: Vec<UploadTask> =
            c.iter().map(|i| task(&format!("f{i}"), &format!("k/f{i}"))).collect();
        let results: Vec<TransferResult> = c
            .iter()
            .map(|i| {
                if i % 5 == 0 {
                    TransferResult::Failure { reason: "boom".to_string() }
                } else {
                    TransferResult::Success
                }
            })
            .collect();
        let (_, tally) = process_chunk(tasks, results);
        tallies.push(tally);
    }
    let total_tally = aggregate_tallies(&tallies);
    assert_eq!(total_tally.success_count + total_tally.failure_count, total as u64);
    assert_eq!(total_tally.failure_count, 13);
}

#[test]
fn whole_batch_from_tree_to_tally() {
    // A directory batch end to end: enumerate, plan, process each chunk
    // with one failing file, aggregate. Every discovered file is accounted
    // for exactly once.
    let tree = FsTree::Dir {
        entries: vec![
            FsTree::Leaf { path: b("Photos/a.jpg") },
            FsTree::Dir {
                entries: vec![FsTree::Leaf { path: b("Photos/Sub/B.jpg") }],
            },
            FsTree::Leaf { path: b("Photos/c.jpg") },
        ],
    };
    let files = walk_dir(tree);
    assert_eq!(files.len(), 3);
    let dest = b("/Backups/");
    let chunks = plan_batch(files, &b("Photos"), Some(&dest), MAX_WORKERS).unwrap();
    assert_eq!(chunks.len(), 3);
    let mut tallies: Vec<BatchTally> = Vec::new();
    let mut keys: Vec<Vec<u8>> = Vec::new();
    for (j, chunk) in chunks.into_iter().enumerate() {
        let results: Vec<TransferResult> = chunk
            .iter()
            .map(|_| {
                if j == 1 {
                    TransferResult::Failure { reason: "permission denied".to_string() }
                } else {
                    TransferResult::Success
                }
            })
            .collect();
        let (outcomes, tally) = process_chunk(chunk, results);
        for o in outcomes {
            keys.push(o.remote_key);
        }
        tallies.push(tally);
    }
    assert_eq!(
        keys,
        vec![b("backups/photos/a.jpg"), b("backups/photos/sub/b.jpg"), b("backups/photos/c.jpg")]
    );
    let total = aggregate_tallies(&tallies);
    assert_eq!(total.success_count, 2);
    assert_eq!(total.failure_count, 1);
}

#[test]
fn combine_tallies_adds_fieldwise() {
    let a = BatchTally { success_count: 3, failure_count: 1 };
    let b = BatchTally { success_count: 2, failure_count: 4 };
    assert_eq!(combine_tallies(&a, &b), BatchTally { success_count: 5, failure_count: 5 });
}

#[test]
fn aggregate_of_no_workers_is_zero() {
    let total = aggregate_tallies(&Vec::new());
    assert_eq!(total, BatchTally { success_count: 0, failure_count: 0 });
}
