use codemode::convert::{result_convertible, Next, Node, Shape, Walk};
use codemode::ExecError;

fn object(slots: Vec<Option<usize>>) -> Node {
    Node {
        length: None,
        slots,
    }
}

fn array(length: u64, slots: Vec<Option<usize>>) -> Node {
    Node {
        length: Some(length),
        slots,
    }
}

fn chain(levels: usize) -> Vec<Node> {
    let mut heap: Vec<Node> = (1..levels).map(|i| object(vec![Some(i)])).collect();
    heap.push(object(vec![None]));
    heap
}

fn what(result: Result<(), ExecError>) -> String {
    match result {
        Err(ExecError::Limit { what }) => what,
        other => panic!("expected a Limit error, got {other:?}"),
    }
}

#[test]
fn primitives_are_convertible() {
    assert!(result_convertible(&vec![], None, 0, 0).is_ok());
}

#[test]
fn depth_is_bounded_exactly() {
    assert!(result_convertible(&chain(5), Some(0), 5, 100).is_ok());
    assert_eq!(
        what(result_convertible(&chain(6), Some(0), 5, 100)),
        "exported value nests deeper than 5 levels"
    );
}

#[test]
fn array_length_is_bounded_exactly() {
    let heap = |n| vec![object(vec![Some(1)]), array(n, vec![])];
    assert!(result_convertible(&heap(10), Some(0), 5, 10).is_ok());
    assert_eq!(
        what(result_convertible(&heap(11), Some(0), 5, 10)),
        "exported array is longer than 10 elements"
    );
    assert_eq!(
        what(result_convertible(
            &vec![array(4294967295, vec![])],
            Some(0),
            5,
            1_000_000
        )),
        "exported array is longer than 1000000 elements"
    );
}

#[test]
fn shared_objects_count_once_for_every_reference() {
    let mut heap: Vec<Node> = (0..60)
        .map(|i| object(vec![Some(i + 1), Some(i + 1)]))
        .collect();
    heap.push(object(vec![None]));
    assert!(matches!(
        result_convertible(&heap, Some(0), 120, 10_000),
        Err(ExecError::OutputTooLarge)
    ));

    let shared = vec![
        object(vec![Some(1), Some(1), Some(1)]),
        object(vec![None]),
    ];
    assert!(result_convertible(&shared, Some(0), 120, 6).is_ok());
    assert!(matches!(
        result_convertible(&shared, Some(0), 120, 5),
        Err(ExecError::OutputTooLarge)
    ));
}

#[test]
fn cycles_end_at_the_depth_bound() {
    let heap = vec![object(vec![Some(0)])];
    assert_eq!(
        what(result_convertible(&heap, Some(0), 7, 1000)),
        "exported value nests deeper than 7 levels"
    );
}

#[test]
fn deep_branch_behind_wide_padding_is_found() {
    let mut slots: Vec<Option<usize>> = vec![None; 1000];
    slots.push(Some(1));
    let mut heap = vec![object(slots)];
    for i in 0..10 {
        heap.push(object(vec![Some(i + 2)]));
    }
    heap.push(object(vec![None]));
    assert_eq!(
        what(result_convertible(&heap, Some(0), 5, 100_000)),
        "exported value nests deeper than 5 levels"
    );
}

#[test]
fn accepts_exactly_what_fits() {
    // Every small graph over three objects, against the three bounds stated directly.
    let slot = [None, Some(0), Some(1), Some(2)];
    for a in 0..4 {
        for b in 0..4 {
            for c in 0..4 {
                let heap = vec![
                    object(vec![slot[a], slot[b]]),
                    array(2, vec![slot[c]]),
                    array(4, vec![]),
                ];
                for (depth, len) in [(1, 3), (2, 3), (3, 5), (4, 9), (2, 4)] {
                    let accepted = result_convertible(&heap, Some(0), depth, len as usize).is_ok();
                    let expected =
                        fits(&heap, 0, depth, len) && unfolded(&heap, 0, depth) <= len;
                    assert_eq!(accepted, expected, "{heap:?} {depth} {len}");
                }
            }
        }
    }
}

fn fits(heap: &[Node], id: usize, depth: usize, len: u64) -> bool {
    heap[id].slots.is_empty()
        || depth > 0
            && heap[id].slots.iter().flatten().all(|&child| {
                heap[child].length.map_or(true, |n| n <= len) && fits(heap, child, depth - 1, len)
            })
}

fn unfolded(heap: &[Node], id: usize, depth: usize) -> u64 {
    if depth == 0 {
        return 0;
    }
    heap[id]
        .slots
        .iter()
        .map(|slot| 1 + slot.map_or(0, |child| unfolded(heap, child, depth - 1)))
        .sum()
}

#[test]
fn walk_asks_only_for_what_is_on_its_path() {
    let shape = |keys| Shape { length: None, keys };
    let mut walk = Walk::new(10, 100);
    assert!(walk.enter(shape(2)).is_ok());
    assert!(matches!(
        walk.advance(),
        Ok(Next::Inspect { frame: 0, key: 0 })
    ));
    assert!(walk.enter(shape(1)).is_ok());
    assert!(matches!(
        walk.advance(),
        Ok(Next::Inspect { frame: 1, key: 0 })
    ));
    assert!(matches!(
        walk.advance(),
        Ok(Next::Inspect { frame: 0, key: 1 })
    ));
    assert!(matches!(walk.advance(), Ok(Next::Done)));
    assert!(matches!(walk.advance(), Ok(Next::Done)));
}
