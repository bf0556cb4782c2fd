use gbtree::tree::build_tree_shape;
use gbtree::tree::check_tree_wf;
use gbtree::tree::partition_rows;
use gbtree::tree::route;
use gbtree::tree::SplitChooser;
use gbtree::tree::TreeNode;

fn sample_tree() -> TreeNode {
    TreeNode::Internal {
        feature_index: 0,
        threshold_bin: 1,
        left: Box::new(TreeNode::Leaf { leaf_id: 0 }),
        right: Box::new(TreeNode::Internal {
            feature_index: 1,
            threshold_bin: 2,
            left: Box::new(TreeNode::Leaf { leaf_id: 1 }),
            right: Box::new(TreeNode::Leaf { leaf_id: 2 }),
        }),
    }
}

#[test]
fn routing_follows_threshold_rule() {
    let t = sample_tree();
    assert_eq!(route(&t, &vec![0, 0]), 0);
    assert_eq!(route(&t, &vec![1, 9]), 0);
    assert_eq!(route(&t, &vec![2, 1]), 1);
    assert_eq!(route(&t, &vec![2, 5]), 2);
}

#[test]
fn routing_twice_gives_the_same_leaf() {
    let t = sample_tree();
    let rows: Vec<Vec<u8>> = vec![vec![0, 0], vec![2, 2], vec![255, 255]];
    for row in &rows {
        assert_eq!(route(&t, row), route(&t, row));
    }
}

#[test]
fn missing_sentinel_routes_right() {
    // Bin 255 is compared numerically, so it goes right past any threshold
    // below 255.
    let t = TreeNode::Internal {
        feature_index: 0,
        threshold_bin: 254,
        left: Box::new(TreeNode::Leaf { leaf_id: 0 }),
        right: Box::new(TreeNode::Leaf { leaf_id: 1 }),
    };
    assert_eq!(route(&t, &vec![255]), 1);
    assert_eq!(route(&t, &vec![254]), 0);
}

#[test]
fn wf_check_rejects_out_of_range_feature() {
    let t = sample_tree();
    assert!(check_tree_wf(&t, 2));
    assert!(!check_tree_wf(&t, 1));
}

#[test]
fn partition_splits_rows_in_order() {
    let binned: Vec<Vec<u8>> = vec![vec![0], vec![2], vec![1], vec![3]];
    let (left, right) = partition_rows(&binned, 0, 1);
    assert_eq!(left, vec![0, 2]);
    assert_eq!(right, vec![1, 3]);
}

struct AlwaysSplit {
    next_leaf: usize,
}

impl SplitChooser for AlwaysSplit {
    fn choose_split(
        &mut self,
        _binned: &Vec<Vec<u8>>,
        _row_indices: &Vec<usize>,
    ) -> Option<(usize, usize)> {
        Some((0, 0))
    }

    fn make_leaf(&mut self, _row_indices: &Vec<usize>) -> usize {
        let id = self.next_leaf;
        self.next_leaf += 1;
        id
    }
}

fn depth_of(t: &TreeNode) -> usize {
    match t {
        TreeNode::Leaf { .. } => 0,
        TreeNode::Internal { left, right, .. } => 1 + depth_of(left).max(depth_of(right)),
    }
}

#[test]
fn built_tree_never_exceeds_max_depth() {
    let binned: Vec<Vec<u8>> = vec![vec![0], vec![1], vec![0], vec![2], vec![1], vec![3]];
    let row_indices: Vec<usize> = (0..binned.len()).collect();
    for max_depth in 0..5 {
        let mut chooser = AlwaysSplit { next_leaf: 0 };
        let t = build_tree_shape(&mut chooser, &binned, &row_indices, 0, max_depth, 1);
        assert!(depth_of(&t) <= max_depth);
        assert!(check_tree_wf(&t, 1));
    }
}

#[test]
fn single_row_is_terminal() {
    let binned: Vec<Vec<u8>> = vec![vec![7]];
    let mut chooser = AlwaysSplit { next_leaf: 0 };
    let t = build_tree_shape(&mut chooser, &binned, &vec![0], 0, 10, 1);
    assert!(matches!(t, TreeNode::Leaf { leaf_id: 0 }));
}

#[test]
fn partition_empty_side_is_allowed() {
    let binned: Vec<Vec<u8>> = vec![vec![5], vec![6]];
    let (left, right) = partition_rows(&binned, 0, 1);
    assert_eq!(left, Vec::<usize>::new());
    assert_eq!(right, vec![0, 1]);
}
