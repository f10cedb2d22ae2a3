use tl::inline::vec::InlineVec;
use tl::inline::vec::InlineVecInner;

#[test]
fn inlinevec_to_vec_stack() {
    let mut x = InlineVec::<usize, 4>::new();

    for i in 0..4 {
        x.push(i * 2);
    }

    assert!(!x.is_heap_allocated());
    assert_eq!(x.len(), 4);

    let xx = x.to_vec();
    assert_eq!(xx.as_slice(), &[0, 2, 4, 6]);

    x.push(42);
    assert!(x.is_heap_allocated());
    assert_eq!(x.as_slice(), &[0, 2, 4, 6, 42]);
    assert_eq!(x.get(4), Some(&42));

    let xx = x.to_vec();
    assert_eq!(xx.as_slice(), &[0, 2, 4, 6, 42]);
}

#[test]
fn inlinevec_to_vec_heap() {
    let mut x = InlineVec::<String, 4>::new();

    for i in 0..4u8 {
        x.push(i.to_string());
    }

    assert!(!x.is_heap_allocated());
    assert_eq!(x.len(), 4);

    let xx = x.to_vec();
    assert_eq!(xx.as_slice(), &["0", "1", "2", "3"]);

    x.push("1337".into());
    assert!(x.is_heap_allocated());
    assert_eq!(x.as_slice(), &["0", "1", "2", "3", "1337"]);
    assert_eq!(x.get(4).map(|x| &**x), Some("1337"));

    let xx = x.to_vec();
    assert_eq!(xx.as_slice(), &["0", "1", "2", "3", "1337"]);
}

#[test]
fn inlinevec_drop_stack() {
    let mut x = InlineVec::<String, 4>::new();

    for i in 0..3u8 {
        x.push(i.to_string());
    }

    assert_eq!(x.as_slice(), &["0", "1", "2"]);
    assert!(!x.is_heap_allocated());
}

#[test]
fn vec_inlinehashmap_drop_heap() {
    let mut x = InlineVec::<String, 4>::new();

    for i in 0..8u8 {
        x.push(i.to_string());
    }

    assert_eq!(x.as_slice(), &["0", "1", "2", "3", "4", "5", "6", "7"]);
    assert!(x.is_heap_allocated());
}

#[test]
fn inlinevec_iter() {
    let mut x = InlineVecInner::<usize, 2>::new();
    x.push(13);
    x.push(42);
    x.push(17);
    x.push(19);
    let mut iter = x.iter();
    assert_eq!(iter.next(), Some(&13));
    assert_eq!(iter.next(), Some(&42));
    assert_eq!(iter.next(), Some(&17));
    assert_eq!(iter.next(), Some(&19));
    assert_eq!(iter.next(), None);
}

#[test]
fn inlinevec_remove() {
    let mut x = InlineVecInner::<usize, 4>::new();
    x.push(789);
    assert_eq!(x.len(), 1);
    assert_eq!(x.get(0), Some(&789));
    assert_eq!(x.remove(0), 789);
    assert_eq!(x.len(), 0);

    for i in 0..4 {
        x.push(i * 2);
    }

    assert!(!x.is_heap_allocated());
    assert_eq!(x.as_slice(), &[0, 2, 4, 6]);

    assert_eq!(x.remove(2), 4);
    assert_eq!(x.as_slice(), &[0, 2, 6]);

    assert_eq!(x.remove(2), 6);
    assert_eq!(x.as_slice(), &[0, 2]);

    assert_eq!(x.remove(1), 2);
    assert_eq!(x.as_slice(), &[0]);

    assert_eq!(x.remove(0), 0);
    assert_eq!(x.as_slice(), &[]);
    assert!(!x.is_heap_allocated());

    // trigger heap allocation
    for i in 0..8 {
        x.push(i * 2);
    }
    assert!(x.is_heap_allocated());
    assert_eq!(x.as_slice(), &[0, 2, 4, 6, 8, 10, 12, 14]);

    assert_eq!(x.remove(7), 14);
    assert_eq!(x.remove(0), 0);
}

#[test]
fn inlinevec_remove_heap() {
    let mut x = InlineVecInner::<String, 4>::new();
    x.push("test".into());
    assert_eq!(x.len(), 1);
    assert_eq!(x.remove(0), "test");
    assert_eq!(x.len(), 0);
}

#[test]
fn inlinevec() {
    let mut x = InlineVecInner::<usize, 4>::new();
    assert_eq!(x.len(), 0);
    assert_eq!(x.get(0), None);
    assert!(!x.is_heap_allocated());

    x.push(1337);
    assert_eq!(x.len(), 1);
    assert_eq!(x.get(0), Some(&1337));
    assert!(!x.is_heap_allocated());

    for v in 0..3 {
        x.push(v);
    }

    assert_eq!(x.len(), 4);

    // this call should move the vector to the heap
    x.push(42);
    assert_eq!(x.len(), 5);
    assert!(x.is_heap_allocated());

    // check that the old vector is still valid
    assert_eq!(x.get(0), Some(&1337));

    for v in 0..500 {
        x.push(v);
    }

    assert_eq!(x.len(), 505);
    assert!(x.is_heap_allocated());

    assert_eq!(x.get(1337), None);

    *x.get_mut(0).unwrap() = 444;
    assert_eq!(x.get(0), Some(&444));
    assert_eq!(x.get_mut(99999 /* out of bounds */), None);
}

#[test]
fn inlinevec_as_slice() {
    let mut x = InlineVecInner::<usize, 4>::new();
    x.push(1337);
    x.push(42);
    x.push(17);
    assert_eq!(x.as_slice(), &[1337, 42, 17]);
    x.push(19);
    x.push(34);
    assert_eq!(x.as_slice(), &[1337, 42, 17, 19, 34]);
}

#[test]
fn inlinevec_third_handle_moves_to_heap() {
    let mut x = InlineVec::<u32, 2>::new();
    x.push(10);
    x.push(20);
    assert!(!x.is_heap_allocated());
    x.push(30);
    assert!(x.is_heap_allocated());
    assert_eq!(x.get(0), Some(&10));
    assert_eq!(x.get(1), Some(&20));
    assert_eq!(x.get(2), Some(&30));
    assert_eq!(x.len(), 3);
}

#[test]
fn inlinevec_same_behaviour_in_both_states() {
    let mut small = InlineVec::<u32, 8>::new();
    let mut large = InlineVec::<u32, 1>::new();
    for i in 0..6u32 {
        small.push(i * 3);
        large.push(i * 3);
    }
    assert!(!small.is_heap_allocated());
    assert!(large.is_heap_allocated());
    assert_eq!(small.len(), large.len());
    assert_eq!(small.as_slice(), large.as_slice());
    assert_eq!(small.remove(2), large.remove(2));
    assert_eq!(small.as_slice(), large.as_slice());
    *small.get_mut(1).unwrap() = 99;
    *large.get_mut(1).unwrap() = 99;
    assert_eq!(small.to_vec(), large.to_vec());
    let mut a = small.iter();
    let mut b = large.iter();
    loop {
        let (x, y) = (a.next(), b.next());
        assert_eq!(x, y);
        if x.is_none() {
            break;
        }
    }
    assert!(!small.is_heap_allocated());
}

#[test]
fn inlinevec_clone_keeps_elements() {
    let mut x = InlineVec::<String, 2>::new();
    x.push("a".to_string());
    let y = x.clone();
    x.push("b".to_string());
    x.push("c".to_string());
    let z = x.clone();
    assert_eq!(y.as_slice(), &["a"]);
    assert!(!y.is_heap_allocated());
    assert_eq!(z.as_slice(), &["a", "b", "c"]);
    assert!(z.is_heap_allocated());
}

#[test]
fn inlinevec_inline_parts() {
    let mut x = InlineVec::<u8, 2>::new();
    x.push(7);
    {
        let (slots, len) = x.inline_parts_mut().unwrap();
        assert_eq!(len, 1);
        assert_eq!(slots[0], 7);
        slots[0] = 8;
    }
    assert_eq!(x.as_slice(), &[8]);
    x.push(1);
    x.push(2);
    assert!(x.inline_parts_mut().is_none());
}

#[test]
fn inlinevec_index_operator() {
    let mut x = InlineVec::<u8, 2>::new();
    x.push(5);
    x.push(6);
    assert_eq!(x[0], 5);
    assert_eq!(x[1], 6);
    x.push(7);
    assert_eq!(x[2], 7);
}
