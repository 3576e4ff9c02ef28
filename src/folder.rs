use vstd::prelude::*;
use vstd::set_lib::{lemma_int_range, lemma_len_subset, set_int_range};

verus! {

/// A folder of a catalogue category; `parent_id` is `None` at the top level.
#[derive(Clone, Debug)]
pub struct Folder {
    pub id: i32,
    pub parent_id: Option<i32>,
    pub name: String,
    pub category: String,
}

/// A catalogue entry that can be filed in a folder.
pub trait Folderable {
    /// The folder the entry is filed in, `None` at the top level.
    spec fn folder_of(&self) -> Option<i32>;

    /// The folder the entry is filed in, `None` at the top level.
    fn folder_id(&self) -> (r: Option<i32>)
        ensures
            r == self.folder_of(),
    ;
}

/// A folder in the tree, given by its position among the folders, with what
/// it holds.
#[derive(Debug)]
pub struct TreeFolderNode {
    pub inner: usize,
    pub children: Vec<TreeNode>,
}

/// A node of the folder tree: a folder with its contents, or an entry given by
/// its position among the entries.
#[derive(Debug)]
pub enum TreeNode {
    Folder(TreeFolderNode),
    Item(usize),
}

/// The folders each entry is filed in.
pub open spec fn item_folders<T: Folderable>(items: Seq<T>) -> Seq<Option<i32>> {
    items.map_values(|t: T| t.folder_of())
}

/// The positions among the first `n` folders of those whose parent is `parent`.
pub open spec fn child_folders(fs: Seq<Folder>, parent: Option<i32>, n: int) -> Seq<int>
    decreases n,
{
    if n <= 0 {
        Seq::empty()
    } else if fs[n - 1].parent_id == parent {
        child_folders(fs, parent, n - 1).push(n - 1)
    } else {
        child_folders(fs, parent, n - 1)
    }
}

/// The positions among the first `n` entries of those filed in `parent`.
pub open spec fn child_items(its: Seq<Option<i32>>, parent: Option<i32>, n: int) -> Seq<int>
    decreases n,
{
    if n <= 0 {
        Seq::empty()
    } else if its[n - 1] == parent {
        child_items(its, parent, n - 1).push(n - 1)
    } else {
        child_items(its, parent, n - 1)
    }
}

/// `nodes` are the contents of `parent` down to `depth` levels: first its
/// subfolders, each with its own contents one level less deep, then its
/// entries, each group in catalogue order. Nothing is listed at depth zero.
pub open spec fn is_subtree(
    fs: Seq<Folder>,
    its: Seq<Option<i32>>,
    parent: Option<i32>,
    nodes: Seq<TreeNode>,
    depth: nat,
) -> bool
    decreases depth,
{
    if depth == 0 {
        nodes.len() == 0
    } else {
        let folders = child_folders(fs, parent, fs.len() as int);
        let entries = child_items(its, parent, its.len() as int);
        &&& nodes.len() == folders.len() + entries.len()
        &&& forall|k: int|
            #![trigger nodes[k]]
            0 <= k < folders.len() ==> match nodes[k] {
                TreeNode::Folder(n) => n.inner == folders[k] && is_subtree(
                    fs,
                    its,
                    Some(fs[folders[k]].id),
                    n.children@,
                    (depth - 1) as nat,
                ),
                TreeNode::Item(_) => false,
            }
        &&& forall|k: int|
            #![trigger nodes[folders.len() + k]]
            0 <= k < entries.len() ==> match nodes[folders.len() + k] {
                TreeNode::Item(i) => i == entries[k],
                TreeNode::Folder(_) => false,
            }
    }
}

fn same_folder(a: Option<i32>, b: Option<i32>) -> (r: bool)
    ensures
        r == (a == b),
{
    match (a, b) {
        (Some(x), Some(y)) => x == y,
        (None, None) => true,
        _ => false,
    }
}

/// The contents of `id` down to `depth` levels.
fn build_children_tree<T: Folderable>(
    id: Option<i32>,
    folders: &Vec<Folder>,
    items: &Vec<T>,
    depth: usize,
) -> (r: Vec<TreeNode>)
    ensures
        is_subtree(folders@, item_folders(items@), id, r@, depth as nat),
    decreases depth,
{
    let mut children: Vec<TreeNode> = Vec::new();
    if depth == 0 {
        return children;
    }
    let ghost its = item_folders(items@);
    let mut i: usize = 0;
    while i < folders.len()
        invariant
            0 <= i <= folders.len(),
            depth > 0,
            its == item_folders(items@),
            children@.len() == child_folders(folders@, id, i as int).len(),
            forall|k: int|
                #![trigger children@[k]]
                0 <= k < children@.len() ==> match children@[k] {
                    TreeNode::Folder(n) => n.inner == child_folders(folders@, id, i as int)[k] && is_subtree(
                        folders@,
                        its,
                        Some(folders@[child_folders(folders@, id, i as int)[k]].id),
                        n.children@,
                        (depth - 1) as nat,
                    ),
                    TreeNode::Item(_) => false,
                },
        decreases folders.len() - i,
    {
        let ghost before = child_folders(folders@, id, i as int);
        let ghost old_children = children@;
        if same_folder(folders[i].parent_id, id) {
            let sub = build_children_tree(Some(folders[i].id), folders, items, depth - 1);
            children.push(TreeNode::Folder(TreeFolderNode { inner: i, children: sub }));
            proof {
                assert(child_folders(folders@, id, i + 1) == before.push(i as int));
            }
        } else {
            proof {
                assert(child_folders(folders@, id, i + 1) == before);
            }
        }
        i = i + 1;
        proof {
            assert forall|k: int| 0 <= k < old_children.len() implies children@[k] == old_children[k]
                && child_folders(folders@, id, i as int)[k] == before[k] by {}
        }
    }
    let ghost nf = children@.len();
    let mut j: usize = 0;
    while j < items.len()
        invariant
            0 <= j <= items.len(),
            depth > 0,
            nf == child_folders(folders@, id, folders@.len() as int).len(),
            its == item_folders(items@),
            children@.len() == nf + child_items(its, id, j as int).len(),
            forall|k: int|
                #![trigger children@[k]]
                0 <= k < nf ==> match children@[k] {
                    TreeNode::Folder(n) => n.inner == child_folders(folders@, id, folders@.len() as int)[k]
                        && is_subtree(
                        folders@,
                        its,
                        Some(folders@[child_folders(folders@, id, folders@.len() as int)[k]].id),
                        n.children@,
                        (depth - 1) as nat,
                    ),
                    TreeNode::Item(_) => false,
                },
            forall|k: int|
                #![trigger children@[nf + k]]
                0 <= k < child_items(its, id, j as int).len() ==> match children@[nf + k] {
                    TreeNode::Item(i) => i == child_items(its, id, j as int)[k],
                    TreeNode::Folder(_) => false,
                },
        decreases items.len() - j,
    {
        let ghost before = child_items(its, id, j as int);
        let ghost old_children = children@;
        let f = items[j].folder_id();
        proof {
            assert(its[j as int] == items@[j as int].folder_of());
        }
        if same_folder(f, id) {
            children.push(TreeNode::Item(j));
            proof {
                assert(child_items(its, id, j + 1) == before.push(j as int));
            }
        } else {
            proof {
                assert(child_items(its, id, j + 1) == before);
            }
        }
        j = j + 1;
        proof {
            assert forall|k: int| 0 <= k < old_children.len() implies children@[k] == old_children[k] by {}
        }
    }
    children
}

/// The folder tree of a category: from the top level down, each folder lists
/// its subfolders, then the entries filed in it, each group in catalogue
/// order. The tree goes one level deeper than there are folders: when folder
/// ids are unique that cuts nothing off (`lemma_tree_depth_suffices`), and
/// where ids repeat it stops a descent that would never end.
pub fn build_tree<T: Folderable>(folders: &Vec<Folder>, items: &Vec<T>) -> (r: Vec<TreeNode>)
    requires
        folders@.len() < usize::MAX,
    ensures
        is_subtree(folders@, item_folders(items@), None, r@, (folders@.len() + 1) as nat),
{
    build_children_tree(None, folders, items, folders.len() + 1)
}

/// No two folders share an id.
pub open spec fn unique_ids(fs: Seq<Folder>) -> bool {
    forall|a: int, b: int| 0 <= a < fs.len() && 0 <= b < fs.len() && a != b ==> fs[a].id != fs[b].id
}

/// `chain` lists positions of folders, each one inside the one before, the
/// first at the top level.
pub open spec fn is_chain(fs: Seq<Folder>, chain: Seq<int>) -> bool {
    &&& forall|m: int| 0 <= m < chain.len() ==> 0 <= #[trigger] chain[m] < fs.len()
    &&& chain.len() > 0 ==> fs[chain[0]].parent_id == None::<i32>
    &&& forall|m: int| 1 <= m < chain.len() ==> fs[#[trigger] chain[m]].parent_id == Some(fs[chain[m - 1]].id)
}

/// The folder a chain ends in, or the top level for an empty chain.
pub open spec fn chain_end(fs: Seq<Folder>, chain: Seq<int>) -> Option<i32> {
    if chain.len() == 0 {
        None
    } else {
        Some(fs[chain.last()].id)
    }
}

proof fn lemma_child_folders_in_range(fs: Seq<Folder>, parent: Option<i32>, n: int, k: int)
    requires
        0 <= n <= fs.len(),
        0 <= k < child_folders(fs, parent, n).len(),
    ensures
        0 <= child_folders(fs, parent, n)[k] < n,
        fs[child_folders(fs, parent, n)[k]].parent_id == parent,
    decreases n,
{
    if n > 0 {
        if fs[n - 1].parent_id == parent {
            if k < child_folders(fs, parent, n - 1).len() {
                lemma_child_folders_in_range(fs, parent, n - 1, k);
            }
        } else {
            lemma_child_folders_in_range(fs, parent, n - 1, k);
        }
    }
}

/// A chain never comes back to a folder: were the folder at `a` the one at
/// `b`, the folder at `b - a` would be a top-level one, which it is not.
proof fn lemma_chain_step_back(fs: Seq<Folder>, chain: Seq<int>, a: int, b: int)
    requires
        unique_ids(fs),
        is_chain(fs, chain),
        0 <= a < b < chain.len(),
    ensures
        chain[a] != chain[b],
    decreases a,
{
    if a == 0 {
        assert(fs[chain[b]].parent_id == Some(fs[chain[b - 1]].id));
    } else {
        assert(fs[chain[a]].parent_id == Some(fs[chain[a - 1]].id));
        assert(fs[chain[b]].parent_id == Some(fs[chain[b - 1]].id));
        lemma_chain_step_back(fs, chain, a - 1, b - 1);
    }
}

/// With unique ids a chain holds each folder at most once, so it is no longer
/// than the number of folders.
proof fn lemma_chain_bounded(fs: Seq<Folder>, chain: Seq<int>)
    requires
        unique_ids(fs),
        is_chain(fs, chain),
    ensures
        chain.len() <= fs.len(),
{
    assert(chain.no_duplicates()) by {
        assert forall|a: int, b: int| 0 <= a < chain.len() && 0 <= b < chain.len() && a != b implies chain[a]
            != chain[b] by {
            if a < b {
                lemma_chain_step_back(fs, chain, a, b);
            } else {
                lemma_chain_step_back(fs, chain, b, a);
            }
        }
    }
    chain.unique_seq_to_set();
    lemma_int_range(0, fs.len() as int);
    assert(chain.to_set().subset_of(set_int_range(0, fs.len() as int)));
    lemma_len_subset(chain.to_set(), set_int_range(0, fs.len() as int));
}

proof fn lemma_subtree_deeper(
    fs: Seq<Folder>,
    its: Seq<Option<i32>>,
    chain: Seq<int>,
    nodes: Seq<TreeNode>,
    d: nat,
    m: nat,
)
    requires
        unique_ids(fs),
        is_chain(fs, chain),
        d + chain.len() == fs.len() + 1,
        m >= d,
        is_subtree(fs, its, chain_end(fs, chain), nodes, d),
    ensures
        is_subtree(fs, its, chain_end(fs, chain), nodes, m),
    decreases d,
{
    lemma_chain_bounded(fs, chain);
    let parent = chain_end(fs, chain);
    let folders = child_folders(fs, parent, fs.len() as int);
    assert forall|k: int| 0 <= k < folders.len() implies match #[trigger] nodes[k] {
        TreeNode::Folder(n) => n.inner == folders[k] && is_subtree(
            fs,
            its,
            Some(fs[folders[k]].id),
            n.children@,
            (m - 1) as nat,
        ),
        TreeNode::Item(_) => false,
    } by {
        lemma_child_folders_in_range(fs, parent, fs.len() as int, k);
        if let TreeNode::Folder(n) = nodes[k] {
            let next = chain.push(folders[k]);
            assert(is_chain(fs, next)) by {
                assert forall|j: int| 1 <= j < next.len() implies fs[#[trigger] next[j]].parent_id == Some(
                    fs[next[j - 1]].id,
                ) by {
                    if j < chain.len() {
                        assert(next[j] == chain[j]);
                        assert(next[j - 1] == chain[j - 1]);
                    }
                }
            }
            assert(chain_end(fs, next) == Some(fs[folders[k]].id));
            lemma_subtree_deeper(fs, its, next, n.children@, (d - 1) as nat, (m - 1) as nat);
        }
    }
}

/// With unique folder ids, the depth that `build_tree` goes to cuts nothing
/// off: its tree is the folder tree at every greater depth too.
pub proof fn lemma_tree_depth_suffices(fs: Seq<Folder>, its: Seq<Option<i32>>, nodes: Seq<TreeNode>, m: nat)
    requires
        unique_ids(fs),
        is_subtree(fs, its, None, nodes, (fs.len() + 1) as nat),
        m >= fs.len() + 1,
    ensures
        is_subtree(fs, its, None, nodes, m),
{
    let chain = Seq::<int>::empty();
    assert(chain_end(fs, chain) == None::<i32>);
    lemma_subtree_deeper(fs, its, chain, nodes, (fs.len() + 1) as nat, m);
}

} // verus!
