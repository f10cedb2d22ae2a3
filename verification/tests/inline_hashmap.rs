use tl::inline::hashmap::InlineHashMap;
use tl::inline::hashmap::InlineHashMapInner;
use tl::inline::hashmap::InlineHashMapIterator;
use tl::inline::hashmap::InlineHashMapIteratorMut;

#[test]
fn inlinehashmap_remove() {
    let mut x = InlineHashMap::<usize, usize, 4>::new();
    x.insert(789, 1336);
    assert_eq!(x.len(), 1);
    assert_eq!(x.get(&789), Some(&1336));
    assert_eq!(x.remove(&789), Some(1336));
    assert_eq!(x.len(), 0);

    assert_eq!(x.remove(&789), None);

    for i in 0..4 {
        x.insert(i, i * 2);
    }

    assert!(!x.is_heap_allocated());
    assert_eq!(x.len(), 4);

    assert_eq!(x.remove(&2), Some(4));
    assert_eq!(x.len(), 3);

    assert_eq!(x.remove(&3), Some(6));
    assert_eq!(x.len(), 2);

    assert_eq!(x.remove(&1), Some(2));
    assert_eq!(x.len(), 1);

    assert_eq!(x.remove(&0), Some(0));
    assert_eq!(x.len(), 0);
    assert!(!x.is_heap_allocated());

    // trigger heap allocation
    for i in 0..8 {
        x.insert(i, i * 2);
    }
    assert!(x.is_heap_allocated());
    assert_eq!(x.len(), 8);

    assert_eq!(x.remove(&7), Some(14));
    assert_eq!(x.remove(&0), Some(0));
}

#[test]
fn inlinehashmap_remove_heap() {
    let mut x = InlineHashMap::<usize, String, 4>::new();
    x.insert(42, "test".into());
    assert_eq!(x.len(), 1);
    assert_eq!(x.remove(&42), Some("test".into()));
    assert_eq!(x.len(), 0);
}

#[test]
fn inlinehashmap_clone() {
    let mut x = InlineHashMapInner::<usize, usize, 4>::new();

    for i in 0..10 {
        x.insert(i, i * 2);
    }

    let x = x.clone();
    assert_eq!(x.len(), 10);
    assert!(x.is_heap_allocated());
    assert_eq!(x.get(&9), Some(&18));
}

#[test]
fn inlinehashmap_to_map_stack() {
    let mut x = InlineHashMapInner::<usize, usize, 4>::new();

    for i in 0..4 {
        x.insert(i, i * 2);
    }

    assert!(!x.is_heap_allocated());
    assert_eq!(x.len(), 4);

    let xx = x.to_map();
    assert_eq!(xx.get(&0), Some(&0));
    assert_eq!(xx.get(&1), Some(&2));
    assert_eq!(xx.get(&2), Some(&4));
    assert_eq!(xx.get(&3), Some(&6));
    assert_eq!(xx.len(), 4);

    x.insert(42, 1337);
    assert!(x.is_heap_allocated());
    assert_eq!(x.len(), 5);
    assert_eq!(x.get(&42), Some(&1337));

    let xx = x.to_map();
    assert_eq!(xx.get(&0), Some(&0));
    assert_eq!(xx.get(&42), Some(&1337));
    assert_eq!(xx.len(), 5);
}

#[test]
fn inlinehashmap_to_map_heap() {
    let mut x = InlineHashMapInner::<usize, String, 4>::new();

    for i in 0..4 {
        x.insert(i, i.to_string());
    }

    assert!(!x.is_heap_allocated());
    assert_eq!(x.len(), 4);

    let xx = x.to_map();
    assert_eq!(&*xx[&0], "0");
    assert_eq!(&*xx[&1], "1");
    assert_eq!(&*xx[&2], "2");
    assert_eq!(&*xx[&3], "3");
    assert_eq!(xx.len(), 4);

    x.insert(42, "1337".into());
    assert!(x.is_heap_allocated());
    assert_eq!(x.len(), 5);
    assert_eq!(x.get(&42).map(|x| &**x), Some("1337"));

    let xx = x.to_map();
    assert_eq!(&*xx[&0], "0");
    assert_eq!(&*xx[&42], "1337");
    assert_eq!(xx.len(), 5);
}

#[test]
fn inlinehashmap_drop_stack() {
    let mut x = InlineHashMapInner::<usize, String, 4>::new();

    for i in 0..3 {
        x.insert(i, i.to_string());
    }

    assert_eq!(x.len(), 3);
    assert!(!x.is_heap_allocated());
}

#[test]
fn hashmap_inlinehashmap_drop_heap() {
    let mut x = InlineHashMapInner::<usize, String, 4>::new();

    for i in 0..16 {
        x.insert(i, i.to_string());
    }

    assert_eq!(x.len(), 16);
    assert!(x.is_heap_allocated());
}

#[test]
fn inlinehashmap() {
    let mut x = InlineHashMapInner::<&'static str, usize, 4>::new();
    assert_eq!(x.len(), 0);
    assert_eq!(x.get(&"hi"), None);
    assert!(!x.is_heap_allocated());

    x.insert("foo", 1337);
    assert_eq!(x.len(), 1);
    assert_eq!(x.get(&"foo"), Some(&1337));
    assert!(!x.is_heap_allocated());

    x.insert("foo2", 2);
    x.insert("foo3", 3);
    x.insert("foo4", 4);

    assert_eq!(x.len(), 4);

    x.insert("foo5", 5);
    assert_eq!(x.len(), 5);
    assert!(x.is_heap_allocated());

    x.insert("foo6", 6);
    x.insert("foo7", 7);
    x.insert("foo8", 8);
    x.insert("foo9", 9);
    x.insert("foo10", 10);
    x.insert("foo11", 11);
}

#[test]
fn inlinehashmap_same_behaviour_in_both_states() {
    let mut small = InlineHashMap::<u32, u32, 8>::new();
    let mut large = InlineHashMap::<u32, u32, 1>::new();
    for i in 0..6u32 {
        small.insert(i, i + 100);
        large.insert(i, i + 100);
    }
    small.insert(3, 7);
    large.insert(3, 7);
    assert!(!small.is_heap_allocated());
    assert!(large.is_heap_allocated());
    assert_eq!(small.len(), 6);
    assert_eq!(large.len(), 6);
    for i in 0..8u32 {
        assert_eq!(small.get(&i), large.get(&i));
        assert_eq!(small.contains_key(&i), large.contains_key(&i));
    }
    assert_eq!(small.get(&3), Some(&7));
    assert_eq!(small.remove(&4), large.remove(&4));
    assert_eq!(small.remove(&4), None);
    assert_eq!(large.remove(&4), None);
    *small.get_mut(&5).unwrap() = 1;
    *large.get_mut(&5).unwrap() = 1;
    assert_eq!(small.to_map(), large.to_map());
    assert_eq!(small.len(), large.len());
}

#[test]
fn inlinehashmap_insert_replaces_without_growing() {
    let mut x = InlineHashMap::<u8, u8, 2>::new();
    x.insert(1, 10);
    x.insert(2, 20);
    x.insert(1, 11);
    assert_eq!(x.len(), 2);
    assert!(!x.is_heap_allocated());
    assert_eq!(x.get(&1), Some(&11));
    x.insert(3, 30);
    assert!(x.is_heap_allocated());
    assert_eq!(x.len(), 3);
    assert_eq!(x.get(&2), Some(&20));
}

#[test]
fn inlinehashmap_iterators() {
    let mut x = InlineHashMap::<u8, u8, 4>::new();
    x.insert(1, 10);
    x.insert(2, 20);
    let mut it = x.iter();
    let mut seen = Vec::new();
    while let Some((k, v)) = it.next() {
        seen.push((*k, *v));
    }
    seen.sort();
    assert_eq!(seen, vec![(1, 10), (2, 20)]);

    let entries = [(1u8, 2u8), (3, 4), (5, 6)];
    let mut it = InlineHashMapIterator::new(&entries, 2);
    assert_eq!(it.next(), Some(&(1, 2)));
    assert_eq!(it.next(), Some(&(3, 4)));
    assert_eq!(it.next(), None);

    let mut entries = [(1u8, 2u8), (3, 4), (5, 6)];
    {
        let mut it = InlineHashMapIteratorMut::new(&mut entries, 2);
        while let Some(e) = it.next() {
            e.1 += 1;
        }
    }
    assert_eq!(entries, [(1, 3), (3, 5), (5, 6)]);
}

#[test]
fn inlinehashmap_inline_parts() {
    let mut x = InlineHashMap::<u8, u8, 2>::new();
    x.insert(1, 10);
    assert_eq!(x.inline_parts_mut().map(|p| p.1), Some(1));
    x.insert(2, 20);
    x.insert(3, 30);
    assert!(x.inline_parts_mut().is_none());
}

#[test]
fn inlinehashmap_heap_finds_by_hash() {
    let mut x = InlineHashMap::<String, usize, 2>::new();
    for i in 0..500usize {
        x.insert(format!("key{}", i), i);
    }
    assert!(x.is_heap_allocated());
    assert_eq!(x.len(), 500);
    for i in (0..500usize).step_by(7) {
        assert_eq!(x.get(&format!("key{}", i)), Some(&i));
    }
    assert_eq!(x.get(&"key500".to_string()), None);
    // removing moves the last entry into the gap; both must still be found
    for i in 0..250usize {
        assert_eq!(x.remove(&format!("key{}", i)), Some(i));
    }
    assert_eq!(x.len(), 250);
    for i in 0..500usize {
        let want = if i < 250 { None } else { Some(&i) };
        assert_eq!(x.get(&format!("key{}", i)), want);
    }
    for round in 0..5usize {
        for i in 0..100usize {
            x.insert(format!("again{}", i), round);
        }
        for i in 0..100usize {
            assert_eq!(x.remove(&format!("again{}", i)), Some(round));
        }
    }
    assert_eq!(x.len(), 250);
    *x.get_mut(&"key499".to_string()).unwrap() = 1;
    assert_eq!(x.get(&"key499".to_string()), Some(&1));
    let y = x.clone();
    assert_eq!(y.len(), 250);
    assert_eq!(y.get(&"key300".to_string()), Some(&300));
    assert_eq!(y.to_map().len(), 250);
}
