use lifo_stack::growth::cap_inc;
use lifo_stack::stack::{Stack, StackError};

fn drain(stack: &mut Stack<i32>) -> Vec<i32> {
    let mut out = Vec::new();
    while let Some(v) = stack.pop() {
        out.push(v);
    }
    out
}

fn traverse(stack: &Stack<i32>) -> Vec<i32> {
    let mut out = Vec::new();
    let mut it = stack.iter();
    while let Some(v) = it.next() {
        out.push(*v);
    }
    out
}

#[test]
fn null_dealloc() {
    // releasing a stack that never allocated must be fine
    let stack = Stack::<i32>::new(0).expect("Arithmetic overflow");
    assert_eq!(stack.cap(), 0);
    drop(stack);
    let stack = Stack::<i32>::default();
    drop(stack);
}

#[test]
fn zero_sized_stack() {
    let _ = Stack::<i32>::new(0);
}

#[test]
fn reallocating() {
    let mut stack = Stack::<i32>::default();
    for i in 0..10 {
        stack.push(i).unwrap();
    }
    let mut it = stack.iter();
    let mut ind: i32 = 0;
    while let Some(item) = it.next() {
        assert_eq!(*item, 9 - ind);
        ind += 1;
    }
    assert_eq!(ind, 10);
}

#[test]
fn clearing_stack() {
    let mut stack = Stack::from_array([1, 2, 3, 4, 5]).unwrap();
    stack.clear();
    assert_eq!(stack.size(), 0);
}

#[test]
fn pushing_slice_in_order() {
    // a bulk push acts as pushing each element in turn: the last one ends on top
    let mut stack = Stack::<i32>::default();
    stack.push_slice(&[1, 2, 3, 4, 5]).unwrap();
    let mut it = stack.iter();
    let mut ind: i32 = 0;
    while let Some(item) = it.next() {
        assert_eq!(*item, 5 - ind);
        ind += 1;
    }
    assert_eq!(ind, 5);
}

#[test]
fn pushes_then_pops_come_back_reversed() {
    let mut stack = Stack::<i32>::default();
    stack.push(100).unwrap();
    let vals = [4, -2, 9, 9, 0, 13, 7, 8, 1, 2, 3, 5];
    for v in vals {
        stack.push(v).unwrap();
    }
    let mut popped = Vec::new();
    for _ in 0..vals.len() {
        popped.push(stack.pop().unwrap());
    }
    let mut expected = vals.to_vec();
    expected.reverse();
    assert_eq!(popped, expected);
    assert_eq!(stack.size(), 1);
    assert_eq!(stack.top(), Some(100));
}

#[test]
fn push_then_pop_is_inverse() {
    let mut stack = Stack::from_array([3, 1, 4]).unwrap();
    let size = stack.size();
    let top = stack.top();
    stack.push(42).unwrap();
    assert_eq!(stack.top(), Some(42));
    assert_eq!(stack.pop(), Some(42));
    assert_eq!(stack.size(), size);
    assert_eq!(stack.top(), top);
}

#[test]
fn clear_keeps_capacity() {
    let mut stack = Stack::<i32>::default();
    for i in 0..15 {
        stack.push(i).unwrap();
    }
    assert_eq!(stack.cap(), 20);
    stack.clear();
    assert_eq!(stack.size(), 0);
    assert_eq!(stack.cap(), 20);
    assert!(stack.empty());
    assert_eq!(stack.pop(), None);
}

#[test]
fn bulk_push_then_pops_reversed() {
    let mut stack = Stack::from_array([10, 20]).unwrap();
    let vals = [1, 2, 3, 4, 5, 6, 7, 8, 9, 10, 11];
    stack.push_slice(&vals).unwrap();
    assert_eq!(stack.size(), 13);
    assert_eq!(stack.cap(), 20);
    let mut popped = Vec::new();
    for _ in 0..vals.len() {
        popped.push(stack.pop().unwrap());
    }
    assert_eq!(popped, vec![11, 10, 9, 8, 7, 6, 5, 4, 3, 2, 1]);
    assert_eq!(drain(&mut stack), vec![20, 10]);
}

#[test]
fn bulk_push_of_nothing() {
    let mut stack = Stack::<i32>::default();
    stack.push_slice(&[]).unwrap();
    assert_eq!(stack.size(), 0);
    assert_eq!(stack.cap(), 0);
}

#[test]
fn clone_is_equal_and_independent() {
    let mut orig = Stack::<i32>::default();
    for i in 0..25 {
        orig.push(i * 3).unwrap();
    }
    for _ in 0..20 {
        orig.pop();
    }
    assert_eq!(orig.cap(), 40);
    let mut copy = orig.clone();
    assert_eq!(copy.size(), orig.size());
    assert_eq!(copy.cap(), 10);
    copy.push(-1).unwrap();
    assert_eq!(orig.size(), 5);
    assert_eq!(orig.top(), Some(12));
    assert_eq!(copy.pop(), Some(-1));
    orig.clear();
    assert_eq!(copy.size(), 5);
    assert_eq!(drain(&mut copy), vec![12, 9, 6, 3, 0]);
}

#[test]
fn clone_of_empty_stack() {
    let orig = Stack::<i32>::new(30).unwrap();
    let copy = orig.clone();
    assert_eq!(copy.size(), 0);
    assert_eq!(copy.cap(), 0);
}

#[test]
fn from_array_pops_last_first() {
    let mut stack = Stack::from_array([1, 2, 3, 4, 5]).unwrap();
    for expected in [5, 4, 3, 2, 1] {
        assert_eq!(stack.pop(), Some(expected));
    }
    assert_eq!(stack.pop(), None);
}

#[test]
fn from_vec_pops_last_first() {
    let mut stack = Stack::from_vec(vec![7, 8, 9]).unwrap();
    assert_eq!(stack.cap(), 10);
    assert_eq!(drain(&mut stack), vec![9, 8, 7]);
}

#[test]
fn cap_inc_growth_law() {
    assert_eq!(cap_inc(0, 0), Some(0));
    assert_eq!(cap_inc(0, 1), Some(10));
    assert_eq!(cap_inc(0, 10), Some(10));
    assert_eq!(cap_inc(0, 11), Some(20));
    assert_eq!(cap_inc(0, 75), Some(80));
    assert_eq!(cap_inc(10, 21), Some(40));
    assert_eq!(cap_inc(3, 7), Some(12));
    assert_eq!(cap_inc(50, 50), Some(50));
    assert_eq!(cap_inc(50, 7), Some(50));
    assert_eq!(cap_inc(usize::MAX / 2 + 1, usize::MAX), None);
    for n in [1usize, 2, 9, 10, 11, 100, 1000, 123456] {
        let c = cap_inc(0, n).unwrap();
        assert!(c >= n);
        assert!(c >= 10);
    }
}

#[test]
fn new_sizes_by_growth_policy() {
    assert_eq!(Stack::<i32>::new(1).unwrap().cap(), 10);
    assert_eq!(Stack::<i32>::new(11).unwrap().cap(), 20);
    assert_eq!(Stack::<i32>::new(25).unwrap().cap(), 40);
    assert_eq!(Stack::<i32>::new(25).unwrap().size(), 0);
}

#[test]
fn huge_capacity_is_refused() {
    assert_eq!(Stack::<u64>::new(usize::MAX).err(), Some(StackError::CapacityOverflow));
    assert_eq!(Stack::<u64>::new(usize::MAX / 4).err(), Some(StackError::CapacityOverflow));
}

#[test]
fn drop_zero_capacity_stack() {
    for _ in 0..3 {
        let stack = Stack::<u8>::default();
        assert_eq!(stack.cap(), 0);
        assert!(stack.empty());
        assert!(stack.full());
    }
}

#[test]
fn pop_on_empty_changes_nothing() {
    let mut stack = Stack::<i32>::new(5).unwrap();
    assert_eq!(stack.pop(), None);
    assert_eq!(stack.size(), 0);
    assert_eq!(stack.cap(), 10);
    assert_eq!(stack.top(), None);
    let mut none = Stack::<i32>::default();
    assert_eq!(none.pop(), None);
    assert_eq!(none.cap(), 0);
}

#[test]
fn traversal_goes_top_down() {
    let mut stack = Stack::from_array([1, 2, 3, 4, 5]).unwrap();
    assert_eq!(traverse(&stack), vec![5, 4, 3, 2, 1]);
    assert_eq!(stack.size(), 5);
    stack.clear();
    assert_eq!(traverse(&stack), Vec::<i32>::new());
    let mut it = stack.iter();
    assert!(it.next().is_none());
    assert!(it.next().is_none());
}

#[test]
fn full_tracks_the_buffer() {
    let mut stack = Stack::<i32>::default();
    for i in 0..9 {
        stack.push(i).unwrap();
        assert!(!stack.full());
    }
    stack.push(9).unwrap();
    assert!(stack.full());
    assert_eq!(stack.cap(), 10);
    stack.push(10).unwrap();
    assert!(!stack.full());
    assert_eq!(stack.cap(), 20);
    assert_eq!(stack.size(), 11);
}

#[test]
fn get_counts_from_the_top() {
    let stack = Stack::from_array([1, 2, 3]).unwrap();
    assert_eq!(stack.get(0), Ok(3));
    assert_eq!(stack.get(1), Ok(2));
    assert_eq!(stack.get(2), Ok(1));
    assert_eq!(stack.get(3), Err(StackError::OutOfRange));
    assert_eq!(Stack::<i32>::default().get(0), Err(StackError::OutOfRange));
}

#[test]
fn set_slot_counts_from_the_buffer_start() {
    let mut stack = Stack::from_array([1, 2, 3]).unwrap();
    assert_eq!(stack.cap(), 10);
    // slot 9 is the bottom, slot 7 the top, slots 0..7 are free
    assert_eq!(stack.set_slot(9, 100), Ok(()));
    assert_eq!(stack.set_slot(7, 300), Ok(()));
    assert_eq!(stack.set_slot(0, 55), Ok(()));
    assert_eq!(stack.set_slot(10, 1), Err(StackError::OutOfRange));
    assert_eq!(stack.size(), 3);
    assert_eq!(traverse(&stack), vec![300, 2, 100]);
}
