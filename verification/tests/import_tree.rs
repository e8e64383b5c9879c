use hurlin::import_tree::AcyclicTree;

#[test]
fn an_empty_tree_takes_any_import() {
    let mut tree: AcyclicTree<u32> = AcyclicTree::new();
    assert_eq!(tree.insert_cydet(1, 2), Ok(()));
    assert_eq!(tree.insert_cydet(1, 3), Ok(()));
    assert_eq!(tree.insert_cydet(2, 3), Ok(()));
}

#[test]
fn a_file_cannot_import_itself() {
    let mut tree: AcyclicTree<u32> = AcyclicTree::default();
    assert_eq!(tree.insert_cydet(7, 7), Err(vec![7]));
}

#[test]
fn a_direct_cycle_is_refused() {
    let mut tree: AcyclicTree<u32> = AcyclicTree::new();
    assert_eq!(tree.insert_cydet(1, 2), Ok(()));
    assert_eq!(tree.insert_cydet(2, 1), Err(vec![2, 1]));
}

#[test]
fn a_long_cycle_is_refused_with_the_chain_of_importers() {
    let mut tree: AcyclicTree<u32> = AcyclicTree::new();
    assert_eq!(tree.insert_cydet(1, 2), Ok(()));
    assert_eq!(tree.insert_cydet(2, 3), Ok(()));
    assert_eq!(tree.insert_cydet(3, 4), Ok(()));
    assert_eq!(tree.insert_cydet(4, 1), Err(vec![4, 3, 2, 1]));
    // a refused import leaves the tree alone
    assert_eq!(tree.insert_cydet(1, 4), Ok(()));
    assert_eq!(tree.insert_cydet(4, 1), Err(vec![4, 1]));
}

#[test]
fn of_several_chains_the_latest_steps_are_reported() {
    let mut tree: AcyclicTree<u32> = AcyclicTree::new();
    // 1 imports 2 and 3, both import 4; 3 was the later importer of 4
    assert_eq!(tree.insert_cydet(1, 2), Ok(()));
    assert_eq!(tree.insert_cydet(1, 3), Ok(()));
    assert_eq!(tree.insert_cydet(2, 4), Ok(()));
    assert_eq!(tree.insert_cydet(3, 4), Ok(()));
    assert_eq!(tree.insert_cydet(4, 1), Err(vec![4, 3, 1]));
    // 5 imports 4 too, but does not lead to 1
    assert_eq!(tree.insert_cydet(5, 4), Ok(()));
    assert_eq!(tree.insert_cydet(4, 1), Err(vec![4, 3, 1]));
    // 2 imports 4 once more, and is now the latest that leads to 1
    assert_eq!(tree.insert_cydet(2, 4), Ok(()));
    assert_eq!(tree.insert_cydet(4, 1), Err(vec![4, 2, 1]));
}

#[test]
fn a_diamond_is_no_cycle() {
    let mut tree: AcyclicTree<u32> = AcyclicTree::new();
    for (file, imported) in [(1, 2), (1, 3), (2, 4), (3, 4), (1, 2), (2, 4)] {
        assert_eq!(tree.insert_cydet(file, imported), Ok(()));
    }
    assert_eq!(tree.insert_cydet(2, 3), Ok(()));
    assert_eq!(tree.insert_cydet(3, 2), Err(vec![3, 2]));
}
