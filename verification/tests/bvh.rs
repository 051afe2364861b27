use rtw::aabb::{surrounding_box, AABB};
use rtw::bvh::{BvhNode, Child};

fn bits(p: [f32; 3]) -> [u32; 3] {
    [p[0].to_bits(), p[1].to_bits(), p[2].to_bits()]
}

fn numbers(p: [u32; 3]) -> [f32; 3] {
    [f32::from_bits(p[0]), f32::from_bits(p[1]), f32::from_bits(p[2])]
}

fn cube_at(min: [f32; 3]) -> Option<AABB> {
    Some(AABB::new(bits(min), bits([min[0] + 1.0, min[1] + 1.0, min[2] + 1.0])))
}

fn leaves(node: &BvhNode, out: &mut Vec<usize>) {
    for child in [&node.left, &node.right] {
        match child {
            Child::Object(i) => out.push(*i),
            Child::Node(n) => leaves(n, out),
        }
    }
}

fn objects(node: &BvhNode) -> Vec<usize> {
    let mut out = Vec::new();
    leaves(node, &mut out);
    out.sort();
    out.dedup();
    out
}

fn height(node: &BvhNode) -> usize {
    let below = |c: &Child| match c {
        Child::Object(_) => 0,
        Child::Node(n) => height(n),
    };
    1 + below(&node.left).max(below(&node.right))
}

fn min_of(boxes: &Vec<Option<AABB>>, i: usize) -> [f32; 3] {
    numbers(boxes[i].unwrap_or(AABB::zero()).min)
}

fn separated(node: &BvhNode, boxes: &Vec<Option<AABB>>) -> bool {
    match (&node.left, &node.right) {
        (Child::Node(l), Child::Node(r)) => {
            let lo = objects(l);
            let hi = objects(r);
            let on_some_axis = (0..3).any(|axis| {
                lo.iter().all(|a| {
                    hi.iter()
                        .all(|b| min_of(boxes, *a)[axis] <= min_of(boxes, *b)[axis])
                })
            });
            on_some_axis && separated(l, boxes) && separated(r, boxes)
        }
        _ => true,
    }
}

fn encloses(outer: &AABB, inner: &AABB) -> bool {
    let (omin, omax) = (numbers(outer.min), numbers(outer.max));
    let (imin, imax) = (numbers(inner.min), numbers(inner.max));
    (0..3).all(|a| omin[a] <= imin[a] && imax[a] <= omax[a])
}

fn boxes_nest(node: &BvhNode, boxes: &Vec<Option<AABB>>) -> bool {
    let bounds = |c: &Child| match c {
        Child::Object(i) => boxes[*i].unwrap_or(AABB::zero()),
        Child::Node(n) => n.bbox,
    };
    let nested = |c: &Child| match c {
        Child::Object(_) => true,
        Child::Node(n) => boxes_nest(n, boxes),
    };
    node.bbox == surrounding_box(&bounds(&node.left), &bounds(&node.right))
        && objects(node)
            .iter()
            .all(|i| encloses(&node.bbox, &boxes[*i].unwrap_or(AABB::zero())))
        && nested(&node.left)
        && nested(&node.right)
}

fn scattered_boxes(n: usize) -> Vec<Option<AABB>> {
    let mut state: u64 = 0x9e37_79b9_7f4a_7c15;
    let mut boxes = Vec::new();
    for _ in 0..n {
        let mut min = [0.0f32; 3];
        for c in min.iter_mut() {
            state ^= state << 13;
            state ^= state >> 7;
            state ^= state << 17;
            *c = (state % 2000) as f32 / 10.0 - 100.0;
        }
        boxes.push(cube_at(min));
    }
    boxes
}

fn leaf(i: usize, own: AABB) -> BvhNode {
    BvhNode::new(Child::Object(i), Child::Object(i), own)
}

fn inner(left: BvhNode, right: BvhNode) -> BvhNode {
    let bbox = surrounding_box(&left.bbox, &right.bbox);
    BvhNode::new(Child::Node(Box::new(left)), Child::Node(Box::new(right)), bbox)
}

#[test]
fn no_objects_make_no_hierarchy() {
    assert_eq!(BvhNode::from_objects(&Vec::new()), None);
}

#[test]
fn a_single_object_is_both_children() {
    let boxes = vec![cube_at([5.0, 6.0, 7.0])];
    let node = BvhNode::from_objects(&boxes).unwrap();
    assert_eq!(node, leaf(0, boxes[0].unwrap()));
    assert_eq!(numbers(node.bbox.min), [5.0, 6.0, 7.0]);
    assert_eq!(numbers(node.bbox.max), [6.0, 7.0, 8.0]);
}

#[test]
fn two_objects_with_one_order_on_all_axes() {
    let boxes = vec![cube_at([9.0, 9.0, 9.0]), cube_at([-1.0, -1.0, -1.0])];
    let node = BvhNode::from_objects(&boxes).unwrap();
    assert_eq!(
        node,
        inner(leaf(1, boxes[1].unwrap()), leaf(0, boxes[0].unwrap()))
    );
    assert_eq!(numbers(node.bbox.min), [-1.0, -1.0, -1.0]);
    assert_eq!(numbers(node.bbox.max), [10.0, 10.0, 10.0]);
}

#[test]
fn three_objects_put_one_left_and_two_right() {
    let boxes = vec![
        cube_at([3.0, 3.0, 3.0]),
        cube_at([-4.0, -4.0, -4.0]),
        cube_at([0.5, 0.5, 0.5]),
    ];
    let node = BvhNode::from_objects(&boxes).unwrap();
    let right = inner(leaf(2, boxes[2].unwrap()), leaf(0, boxes[0].unwrap()));
    assert_eq!(node, inner(leaf(1, boxes[1].unwrap()), right));
}

#[test]
fn an_object_without_a_box_is_sorted_as_the_origin() {
    let boxes = vec![cube_at([2.0, 2.0, 2.0]), None, cube_at([-3.0, -3.0, -3.0])];
    let node = BvhNode::from_objects(&boxes).unwrap();
    let right = inner(leaf(1, AABB::zero()), leaf(0, boxes[0].unwrap()));
    assert_eq!(node, inner(leaf(2, boxes[2].unwrap()), right));
    assert_eq!(numbers(node.bbox.min), [-3.0, -3.0, -3.0]);
    assert_eq!(numbers(node.bbox.max), [3.0, 3.0, 3.0]);
}

#[test]
fn the_hierarchy_holds_every_object() {
    for n in 1..40 {
        let boxes = scattered_boxes(n);
        let node = BvhNode::from_objects(&boxes).unwrap();
        assert_eq!(objects(&node), (0..n).collect::<Vec<usize>>());
    }
}

#[test]
fn every_object_is_a_leaf_once() {
    let boxes = scattered_boxes(100);
    let node = BvhNode::from_objects(&boxes).unwrap();
    let mut all = Vec::new();
    leaves(&node, &mut all);
    all.sort();
    let twice: Vec<usize> = (0..200).map(|i| i / 2).collect();
    assert_eq!(all, twice);
}

#[test]
fn every_split_separates_its_sides_on_some_axis() {
    for n in 1..40 {
        let boxes = scattered_boxes(n);
        let node = BvhNode::from_objects(&boxes).unwrap();
        assert!(separated(&node, &boxes));
    }
}

#[test]
fn every_node_keeps_the_box_around_its_objects() {
    for n in 1..40 {
        let boxes = scattered_boxes(n);
        let node = BvhNode::from_objects(&boxes).unwrap();
        assert!(boxes_nest(&node, &boxes));
        assert_eq!(node.bounding_box(), Some(node.bbox));
    }
}

#[test]
fn the_hierarchy_is_shallow() {
    let height_over = |n: usize| height(&BvhNode::from_objects(&scattered_boxes(n)).unwrap());
    assert_eq!(height_over(1), 1);
    assert_eq!(height_over(2), 2);
    assert_eq!(height_over(3), 3);
    assert_eq!(height_over(4), 3);
    assert_eq!(height_over(5), 4);
    assert_eq!(height_over(256), 9);
    assert_eq!(height_over(257), 10);
}

#[test]
fn the_random_axis_is_always_an_axis() {
    for _ in 0..200 {
        assert!(BvhNode::from_objects(&scattered_boxes(8)).is_some());
    }
}

#[test]
fn the_random_axis_takes_every_value() {
    // Two objects whose order differs from axis to axis: the left leaf tells
    // which axis was drawn.
    let boxes = vec![cube_at([1.0, 2.0, 1.0]), cube_at([2.0, 1.0, 1.0])];
    let mut seen = [false; 2];
    for _ in 0..200 {
        let node = BvhNode::from_objects(&boxes).unwrap();
        match node.left {
            Child::Node(l) => match l.left {
                Child::Object(i) => seen[i] = true,
                _ => panic!("not a leaf"),
            },
            _ => panic!("not a node"),
        }
    }
    assert_eq!(seen, [true, true]);
}

#[test]
fn split_sorts_by_the_axis_and_halves() {
    let boxes = vec![
        cube_at([4.0, 0.0, 9.0]),
        cube_at([2.0, 1.0, 9.0]),
        cube_at([3.0, 2.0, 9.0]),
        cube_at([1.0, 3.0, 9.0]),
        cube_at([-0.5, 4.0, 9.0]),
    ];
    let ids = vec![0, 1, 2, 3, 4];
    assert_eq!(BvhNode::split(&boxes, &ids, 0), (vec![4, 3], vec![1, 2, 0]));
    assert_eq!(BvhNode::split(&boxes, &ids, 1), (vec![0, 1], vec![2, 3, 4]));
}

#[test]
fn split_keeps_the_order_of_equal_keys() {
    let boxes = vec![
        cube_at([4.0, 0.0, 9.0]),
        cube_at([2.0, 1.0, 9.0]),
        cube_at([3.0, 2.0, 9.0]),
        cube_at([1.0, 3.0, 9.0]),
        cube_at([0.0, 4.0, 9.0]),
    ];
    assert_eq!(
        BvhNode::split(&boxes, &vec![3, 1, 4, 0, 2], 2),
        (vec![3, 1], vec![4, 0, 2])
    );
}

#[test]
fn split_takes_both_zeros_for_equal() {
    let boxes = vec![cube_at([0.0, 0.0, 0.0]), cube_at([-0.0, 0.0, 0.0])];
    assert_eq!(BvhNode::split(&boxes, &vec![0, 1], 0), (vec![0], vec![1]));
    assert_eq!(BvhNode::split(&boxes, &vec![1, 0], 0), (vec![1], vec![0]));
}

#[test]
fn split_works_on_a_part_of_the_objects() {
    let boxes = vec![
        cube_at([4.0, 0.0, 9.0]),
        cube_at([2.0, 1.0, 9.0]),
        cube_at([3.0, 2.0, 9.0]),
        cube_at([1.0, 3.0, 9.0]),
        cube_at([0.0, 4.0, 9.0]),
    ];
    assert_eq!(BvhNode::split(&boxes, &vec![2, 0, 3], 0), (vec![3], vec![2, 0]));
    assert_eq!(BvhNode::split(&boxes, &vec![2], 0), (vec![], vec![2]));
    assert_eq!(BvhNode::split(&boxes, &vec![], 0), (vec![], vec![]));
}

#[test]
fn box_or_zero_fills_in_the_origin() {
    let own = AABB::new(bits([1.0, 2.0, 3.0]), bits([4.0, 5.0, 6.0]));
    assert_eq!(BvhNode::box_or_zero(&Some(own)), own);
    assert_eq!(BvhNode::box_or_zero(&None), AABB::zero());
}
