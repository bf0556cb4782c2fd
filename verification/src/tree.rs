//! Decision-tree structure and routing over binned rows.
//!
//! A tree node either routes on one feature's bin id or names a leaf by its
//! index into a caller-held table of leaf values.  Routing follows the
//! invariant `bin <= threshold_bin -> left, else -> right`; the missing-value
//! sentinel bin `255` is compared numerically like any other bin id, so it is
//! routed right whenever the threshold is below `255`.

use vstd::prelude::*;

verus! {

/// One node of a regression tree: a leaf, named by its index into a table of
/// leaf values, or an internal split on one feature's bin id.
#[derive(Debug)]
pub enum TreeNode {
    Leaf { leaf_id: usize },
    Internal { feature_index: usize, threshold_bin: usize, left: Box<TreeNode>, right: Box<TreeNode> },
}

/// Every internal node splits on a feature index below `num_features`, so a
/// row of that width can be routed without going out of bounds.
pub open spec fn tree_wf(t: TreeNode, num_features: nat) -> bool
    decreases t,
{
    match t {
        TreeNode::Leaf { .. } => true,
        TreeNode::Internal { feature_index, left, right, .. } => {
            &&& feature_index < num_features
            &&& tree_wf(*left, num_features)
            &&& tree_wf(*right, num_features)
        },
    }
}

/// Number of internal nodes on the longest root-to-leaf path.
pub open spec fn tree_depth(t: TreeNode) -> nat
    decreases t,
{
    match t {
        TreeNode::Leaf { .. } => 0,
        TreeNode::Internal { left, right, .. } => {
            let dl = tree_depth(*left);
            let dr = tree_depth(*right);
            1 + if dl >= dr {
                dl
            } else {
                dr
            }
        },
    }
}

/// The leaf a binned row is routed to: at an internal node the row goes left
/// exactly when its bin id at the split feature is at most the threshold.
pub open spec fn spec_route(t: TreeNode, row: Seq<u8>) -> int
    decreases t,
{
    match t {
        TreeNode::Leaf { leaf_id } => leaf_id as int,
        TreeNode::Internal { feature_index, threshold_bin, left, right } => {
            if row[feature_index as int] as int <= threshold_bin as int {
                spec_route(*left, row)
            } else {
                spec_route(*right, row)
            }
        },
    }
}

/// Walks a binned row down the tree and returns the index of the leaf it
/// reaches.
pub fn route(t: &TreeNode, row: &Vec<u8>) -> (r: usize)
    requires
        tree_wf(*t, row@.len()),
    ensures
        r as int == spec_route(*t, row@),
    decreases *t,
{
    match t {
        TreeNode::Leaf { leaf_id } => *leaf_id,
        TreeNode::Internal { feature_index, threshold_bin, left, right } => {
            if (row[*feature_index] as usize) <= *threshold_bin {
                route(left, row)
            } else {
                route(right, row)
            }
        },
    }
}

/// Checks, at run time, that every split feature index in the tree is below
/// `num_features`.
pub fn check_tree_wf(t: &TreeNode, num_features: usize) -> (b: bool)
    ensures
        b == tree_wf(*t, num_features as nat),
    decreases *t,
{
    match t {
        TreeNode::Leaf { .. } => true,
        TreeNode::Internal { feature_index, left, right, .. } => {
            *feature_index < num_features && check_tree_wf(left, num_features) && check_tree_wf(
                right,
                num_features,
            )
        },
    }
}

/// Routing has no hidden state: it is a pure function of the tree and the
/// row, so two traversals of one tree with one row reach the same leaf.
pub proof fn lemma_route_deterministic(t: TreeNode, row1: Seq<u8>, row2: Seq<u8>)
    requires
        row1 == row2,
    ensures
        spec_route(t, row1) == spec_route(t, row2),
{
}

/// A row goes to the left child exactly when its bin id at the split feature
/// is at most the split bin.
pub open spec fn goes_left(row: Seq<u8>, feature_index: int, split_bin: int) -> bool {
    row[feature_index] as int <= split_bin
}

/// A sequence of indices is strictly increasing.
pub open spec fn strictly_increasing(s: Seq<usize>) -> bool {
    forall|i: int, j: int| 0 <= i < j < s.len() ==> s[i] < s[j]
}

/// Splits the row indices of a binned matrix by the routing test at one
/// feature: the left side holds, in order, every row whose bin id at
/// `feature_index` is at most `split_bin`, the right side the others.
pub fn partition_rows(binned: &Vec<Vec<u8>>, feature_index: usize, split_bin: usize) -> (lr: (
    Vec<usize>,
    Vec<usize>,
))
    requires
        forall|i: int| 0 <= i < binned@.len() ==> feature_index < binned@[i]@.len(),
    ensures
        strictly_increasing(lr.0@),
        strictly_increasing(lr.1@),
        forall|k: int| 0 <= k < lr.0@.len() ==> lr.0@[k] < binned@.len(),
        forall|k: int| 0 <= k < lr.1@.len() ==> lr.1@[k] < binned@.len(),
        forall|i: int|
            0 <= i < binned@.len() ==> (goes_left(binned@[i]@, feature_index as int, split_bin as int)
                <==> lr.0@.contains(i as usize)),
        forall|i: int|
            0 <= i < binned@.len() ==> (!goes_left(binned@[i]@, feature_index as int, split_bin as int)
                <==> lr.1@.contains(i as usize)),
        lr.0@.len() + lr.1@.len() == binned@.len(),
{
    let mut left: Vec<usize> = Vec::new();
    let mut right: Vec<usize> = Vec::new();
    let mut i: usize = 0;
    while i < binned.len()
        invariant
            0 <= i <= binned@.len(),
            forall|k: int| 0 <= k < binned@.len() ==> feature_index < binned@[k]@.len(),
            strictly_increasing(left@),
            strictly_increasing(right@),
            forall|k: int| 0 <= k < left@.len() ==> left@[k] < i,
            forall|k: int| 0 <= k < right@.len() ==> right@[k] < i,
            forall|r: int|
                0 <= r < i ==> (goes_left(binned@[r]@, feature_index as int, split_bin as int)
                    <==> left@.contains(r as usize)),
            forall|r: int|
                0 <= r < i ==> (!goes_left(binned@[r]@, feature_index as int, split_bin as int)
                    <==> right@.contains(r as usize)),
            left@.len() + right@.len() == i,
        decreases binned@.len() - i,
    {
        let ghost old_left = left@;
        let ghost old_right = right@;
        if (binned[i][feature_index] as usize) <= split_bin {
            left.push(i);
        } else {
            right.push(i);
        }
        proof {
            assert forall|r: int| 0 <= r < i + 1 implies (goes_left(
                binned@[r]@,
                feature_index as int,
                split_bin as int,
            ) <==> left@.contains(r as usize)) by {
                if r < i {
                    if old_left.contains(r as usize) {
                        let k = choose|k: int| 0 <= k < old_left.len() && old_left[k] == r as usize;
                        assert(left@[k] == r as usize);
                    }
                    if left@.contains(r as usize) {
                        let k = choose|k: int| 0 <= k < left@.len() && left@[k] == r as usize;
                        assert(k < old_left.len() ==> old_left[k] == r as usize);
                    }
                } else {
                    if goes_left(binned@[r]@, feature_index as int, split_bin as int) {
                        assert(left@[left@.len() - 1] == i);
                    } else {
                        if left@.contains(i as usize) {
                            let k = choose|k: int| 0 <= k < left@.len() && left@[k] == i as usize;
                            assert(k < old_left.len() ==> old_left[k] < i);
                        }
                    }
                }
            }
            assert forall|r: int| 0 <= r < i + 1 implies (!goes_left(
                binned@[r]@,
                feature_index as int,
                split_bin as int,
            ) <==> right@.contains(r as usize)) by {
                if r < i {
                    if old_right.contains(r as usize) {
                        let k = choose|k: int|
                            0 <= k < old_right.len() && old_right[k] == r as usize;
                        assert(right@[k] == r as usize);
                    }
                    if right@.contains(r as usize) {
                        let k = choose|k: int| 0 <= k < right@.len() && right@[k] == r as usize;
                        assert(k < old_right.len() ==> old_right[k] == r as usize);
                    }
                } else {
                    if !goes_left(binned@[r]@, feature_index as int, split_bin as int) {
                        assert(right@[right@.len() - 1] == i);
                    } else {
                        if right@.contains(i as usize) {
                            let k = choose|k: int| 0 <= k < right@.len() && right@[k] == i as usize;
                            assert(k < old_right.len() ==> old_right[k] < i);
                        }
                    }
                }
            }
        }
        i = i + 1;
    }
    (left, right)
}

/// Copies one binned row.
fn copy_row(row: &Vec<u8>) -> (r: Vec<u8>)
    ensures
        r@ == row@,
{
    let mut r: Vec<u8> = Vec::new();
    let mut i: usize = 0;
    while i < row.len()
        invariant
            0 <= i <= row@.len(),
            r@ == row@.subrange(0, i as int),
        decreases row@.len() - i,
    {
        r.push(row[i]);
        i = i + 1;
        proof {
            assert(r@ =~= row@.subrange(0, i as int));
        }
    }
    proof {
        assert(r@ =~= row@);
    }
    r
}

/// Gathers the rows of a binned matrix named by a selection of indices, in
/// selection order.
pub fn select_rows(binned: &Vec<Vec<u8>>, selection: &Vec<usize>) -> (out: Vec<Vec<u8>>)
    requires
        forall|k: int| 0 <= k < selection@.len() ==> selection@[k] < binned@.len(),
    ensures
        out@.len() == selection@.len(),
        forall|k: int| 0 <= k < selection@.len() ==> out@[k]@ == binned@[selection@[k] as int]@,
{
    let mut out: Vec<Vec<u8>> = Vec::new();
    let mut k: usize = 0;
    while k < selection.len()
        invariant
            0 <= k <= selection@.len(),
            forall|j: int| 0 <= j < selection@.len() ==> selection@[j] < binned@.len(),
            out@.len() == k,
            forall|j: int| 0 <= j < k ==> out@[j]@ == binned@[selection@[j] as int]@,
        decreases selection@.len() - k,
    {
        out.push(copy_row(&binned[selection[k]]));
        k = k + 1;
    }
    out
}

/// Gathers the entries of an index list named by a selection, in selection
/// order.
pub fn select_indices(indices: &Vec<usize>, selection: &Vec<usize>) -> (out: Vec<usize>)
    requires
        forall|k: int| 0 <= k < selection@.len() ==> selection@[k] < indices@.len(),
    ensures
        out@.len() == selection@.len(),
        forall|k: int| 0 <= k < selection@.len() ==> out@[k] == indices@[selection@[k] as int],
{
    let mut out: Vec<usize> = Vec::new();
    let mut k: usize = 0;
    while k < selection.len()
        invariant
            0 <= k <= selection@.len(),
            forall|j: int| 0 <= j < selection@.len() ==> selection@[j] < indices@.len(),
            out@.len() == k,
            forall|j: int| 0 <= j < k ==> out@[j] == indices@[selection@[j] as int],
        decreases selection@.len() - k,
    {
        out.push(indices[selection[k]]);
        k = k + 1;
    }
    out
}

/// The split policy a tree is grown with.  The builder asks it, per node,
/// for a split over the current row subset, and for a leaf id when a node
/// is terminal; nothing is assumed of its answers, so the builder's
/// guarantees hold for every policy, including one driven by
/// floating-point gain.
pub trait SplitChooser {
    /// A split `(feature_index, split_bin)` for the rows of `binned`, whose
    /// positions in the full training set are `row_indices`; `None` for no
    /// worthwhile split.
    fn choose_split(&mut self, binned: &Vec<Vec<u8>>, row_indices: &Vec<usize>) -> (r: Option<
        (usize, usize),
    >);

    /// Makes a leaf for the rows named by `row_indices` and returns its id.
    fn make_leaf(&mut self, row_indices: &Vec<usize>) -> (r: usize);
}

/// Grows a tree over a subset of binned rows by recursive partitioning: a
/// node is a leaf once `depth` reaches `max_depth`, once one row or fewer
/// remains, or once the chooser offers no split (or names a feature out of
/// range); otherwise the rows are split by the routing test and both sides
/// are grown one level deeper.  The tree is well formed and its depth never
/// exceeds the remaining depth budget, whatever the chooser answers.
pub fn build_tree_shape<C: SplitChooser>(
    chooser: &mut C,
    binned: &Vec<Vec<u8>>,
    row_indices: &Vec<usize>,
    depth: usize,
    max_depth: usize,
    num_features: usize,
) -> (t: TreeNode)
    requires
        binned@.len() == row_indices@.len(),
        forall|i: int| 0 <= i < binned@.len() ==> binned@[i]@.len() == num_features,
    ensures
        tree_wf(t, num_features as nat),
        tree_depth(t) <= if depth < max_depth {
            (max_depth - depth) as int
        } else {
            0
        },
    decreases max_depth - depth,
{
    if depth >= max_depth || row_indices.len() <= 1 {
        let leaf_id = chooser.make_leaf(row_indices);
        return TreeNode::Leaf { leaf_id };
    }
    match chooser.choose_split(binned, row_indices) {
        Option::None => {
            let leaf_id = chooser.make_leaf(row_indices);
            TreeNode::Leaf { leaf_id }
        },
        Option::Some((feature_index, split_bin)) => {
            if feature_index >= num_features {
                let leaf_id = chooser.make_leaf(row_indices);
                return TreeNode::Leaf { leaf_id };
            }
            let (left_sel, right_sel) = partition_rows(binned, feature_index, split_bin);
            let left_rows = select_rows(binned, &left_sel);
            let left_idx = select_indices(row_indices, &left_sel);
            let right_rows = select_rows(binned, &right_sel);
            let right_idx = select_indices(row_indices, &right_sel);
            let left = build_tree_shape(
                chooser,
                &left_rows,
                &left_idx,
                depth + 1,
                max_depth,
                num_features,
            );
            let right = build_tree_shape(
                chooser,
                &right_rows,
                &right_idx,
                depth + 1,
                max_depth,
                num_features,
            );
            TreeNode::Internal {
                feature_index,
                threshold_bin: split_bin,
                left: Box::new(left),
                right: Box::new(right),
            }
        },
    }
}

} // verus!
