use vstd::prelude::*;

verus! {

/// A directory tree as handed to the enumerator: a path that is a regular
/// file (or anything else that is not a directory), or a directory with its
/// entries in directory order. The unverified shell reads the file system
/// into this shape; enumeration order and flattening are decided here.
#[derive(Debug, PartialEq, Eq)]
pub enum FsTree {
    Leaf { path: Vec<u8> },
    Dir { entries: Vec<FsTree> },
}

/// All regular-file paths reachable from `t`, in depth-first order: a leaf
/// contributes itself, a directory contributes its entries' files in entry
/// order.
pub open spec fn files_of(t: FsTree) -> Seq<Seq<u8>>
    decreases t,
{
    match t {
        FsTree::Leaf { path } => seq![path@],
        FsTree::Dir { entries } => files_of_all(entries@),
    }
}

/// The files of a row of sibling trees, in order.
pub open spec fn files_of_all(ts: Seq<FsTree>) -> Seq<Seq<u8>>
    decreases ts,
{
    if ts.len() == 0 {
        Seq::empty()
    } else {
        files_of(ts[0]) + files_of_all(ts.skip(1))
    }
}

/// Flatten a directory tree into the list of its regular files, in
/// depth-first order. A path that is not a directory is returned as the
/// one file of the walk.
pub fn walk_dir(dir: FsTree) -> (res: Vec<Vec<u8>>)
    ensures
        res@.map_values(|p: Vec<u8>| p@) == files_of(dir),
    decreases dir,
{
    match dir {
        FsTree::Leaf { path } => {
            let mut res: Vec<Vec<u8>> = Vec::new();
            res.push(path);
            proof {
                assert(res@.map_values(|p: Vec<u8>| p@) =~= files_of(dir));
            }
            res
        },
        FsTree::Dir { entries } => {
            let ghost entries0 = entries@;
            let mut entries = entries;
            let mut res: Vec<Vec<u8>> = Vec::new();
            while entries.len() > 0
                invariant
                    dir is Dir,
                    dir->entries@ == entries0,
                    res@.map_values(|p: Vec<u8>| p@) + files_of_all(entries@) =~= files_of_all(
                        entries0,
                    ),
                    forall|j: int|
                        0 <= j < entries@.len() ==> decreases_to!(entries0 => #[trigger] entries@[j]),
                decreases entries@.len(),
            {
                let ghost pre = entries@;
                let ghost resv0 = res@.map_values(|p: Vec<u8>| p@);
                let head = entries.remove(0);
                proof {
                    assert(head == pre[0]);
                    assert(entries@ =~= pre.skip(1));
                    assert forall|j: int| 0 <= j < entries@.len() implies decreases_to!(
                        entries0 => #[trigger] entries@[j]) by {
                        assert(entries@[j] == pre[j + 1]);
                    }
                    assert(decreases_to!(entries0 => head));
                    assert(decreases_to!(dir => dir->entries));
                    assert(dir->entries@ == entries0);
                    assert(decreases_to!(dir => head));
                }
                let mut sub = walk_dir(head);
                proof {
                    assert(files_of_all(pre) == files_of(head) + files_of_all(pre.skip(1)));
                }
                res.append(&mut sub);
                proof {
                    assert(res@.map_values(|p: Vec<u8>| p@) =~= resv0 + files_of(head));
                    assert((resv0 + files_of(head)) + files_of_all(entries@) =~= resv0 + (files_of(
                        head,
                    ) + files_of_all(entries@)));
                }
            }
            proof {
                assert(files_of_all(entries@) =~= Seq::<Seq<u8>>::empty());
                assert(res@.map_values(|p: Vec<u8>| p@) + Seq::<Seq<u8>>::empty() =~= res@.map_values(
                    |p: Vec<u8>| p@,
                ));
            }
            res
        },
    }
}

} // verus!
