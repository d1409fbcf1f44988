use ferrum_hdl::array::Array;
use ferrum_hdl::bit::{Bit, H, L};
use ferrum_hdl::index::Idx;
use ferrum_hdl::signal::{apply2, Signal};
use ferrum_hdl::tree::{TreeIter, TreeNode};

#[test]
fn at() {
    assert_eq!(Array::from_vec(vec![3, 2, 1, 0]).at(3), 0);
}

#[test]
fn slice() {
    assert_eq!(
        Array::from_vec(vec![3, 2, 1, 0]).slice(1, 2),
        Array::from_vec(vec![2, 1])
    );
}

#[test]
fn array_unbundle() {
    let rows: Vec<Array<Bit>> = vec![
        Array::from_vec(vec![H, H, L]),
        Array::from_vec(vec![L, H, L]),
        Array::from_vec(vec![H, L, H]),
        Array::from_vec(vec![L, L, H]),
    ];
    let s = Signal::new(rows);

    let res = Array::unbundle(s);

    let extract = |ind: usize| res.values[ind].clone().iter().take(4);

    assert_eq!(extract(0), [H, L, H, L]);
    assert_eq!(extract(1), [H, H, L, L]);
    assert_eq!(extract(2), [L, L, H, H]);
}

#[test]
fn array_bundle() {
    let s = Array::from_vec(vec![
        Signal::new(vec![H, L, H, L]),
        Signal::new(vec![H, H, L, L]),
        Signal::new(vec![L, L, H, H]),
    ]);

    let res = Array::bundle(s);

    assert_eq!(res.values, [
        Array::from_vec(vec![H, H, L]),
        Array::from_vec(vec![L, H, L]),
        Array::from_vec(vec![H, L, H]),
        Array::from_vec(vec![L, L, H])
    ]);
}

#[test]
fn array_reverse() {
    assert_eq!(
        Array::from_vec(vec![1, 2, 3]).reverse(),
        Array::from_vec(vec![3, 2, 1])
    );
}

#[test]
fn idx_wraps_forward_and_backward() {
    let i = Idx::new(4);
    assert_eq!(i.val(), 0);
    assert_eq!(i.succ().val(), 1);
    assert_eq!(i.pred().val(), 3);
    let mut j = i;
    for _ in 0..4 {
        j = j.succ();
    }
    assert_eq!(j.val(), 0);
    assert!(j.is_min());
    assert!(j.pred().is_max());
}

#[test]
fn signal_smap_and_apply2() {
    let s = Signal::new(vec![1u32, 2, 3]);
    let doubled = s.smap(|x| x * 2).into_signal();
    assert_eq!(doubled.at(0), 2);
    assert_eq!(doubled.at(2), 6);

    let t = Signal::new(vec![10u32, 20, 30]);
    let sum = apply2(&doubled, &t, |a, b| a + b).into_signal();
    assert_eq!(sum.iter().take(3), [12, 24, 36]);
}

#[test]
fn bit_round_trip() {
    assert_eq!(Bit::from_bool(true), H);
    assert_eq!(Bit::from_bool(false), L);
    assert!(H.as_bool());
    assert!(!L.as_bool());
}

#[test]
fn tree_iter_depth_first() {
    let seed = vec![
        TreeNode::Node(vec![
            TreeNode::Leaf(1),
            TreeNode::Node(vec![TreeNode::Leaf(2), TreeNode::Leaf(3)]),
        ]),
        TreeNode::Leaf(4),
    ];
    let mut it = TreeIter::new(&seed);
    let mut got = Vec::new();
    while let Some(v) = it.next() {
        got.push(v);
    }
    assert_eq!(got, [1, 2, 3, 4]);
}
