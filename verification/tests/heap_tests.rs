use capevm::heap::{init_heap, Heap, HeapIteratorMut, SafeHeapRef, HEADER_SIZE, MAX_SAFE_REFS, MEM_SIZE};

fn prepend_to_list(heap: &mut Heap, list: SafeHeapRef, node: SafeHeapRef) -> SafeHeapRef {
    let node_ref = heap.refs.get(&node);
    let new_head = heap.objs.get(&node_ref);
    let list_ref = heap.refs.get(&list);
    new_head.set_ref(&mut heap.objs, 0, Some(list_ref));
    heap.refs.release_safe(list);
    node
}

fn append_to_list(heap: &mut Heap, list: SafeHeapRef, node: SafeHeapRef) -> SafeHeapRef {
    let list_ref = heap.refs.get(&list);
    let mut finger = heap.objs.get(&list_ref);
    while let Some(next) = finger.get_ref(&heap.objs, 0) {
        finger = heap.objs.get(&next);
    }
    let node_ref = heap.refs.get(&node);
    finger.set_ref(&mut heap.objs, 0, Some(node_ref));
    heap.refs.release_safe(node);
    list
}

#[test]
fn test_heap() {
    let mut heap = init_heap();
    let _ = heap.objs.malloc(1, 1).unwrap(); // Create some garbage

    let head = heap.objs.malloc(1, 1).unwrap();
    head.set_int(&mut heap.objs, 0, 0);
    let head_ref = head.to_heap_ref();
    let mut list = heap.refs.get_safe(&head_ref);

    for i in 1..5_usize {
        let _garbage = heap.objs.malloc(1, 1).unwrap(); // Create some garbage
        let new_node = heap.objs.malloc(1, 1).unwrap();
        new_node.set_int(&mut heap.objs, 0, i);
        let new_node_ref = new_node.to_heap_ref();
        let new_node = heap.refs.get_safe(&new_node_ref);

        if i % 2 == 0 {
            list = prepend_to_list(&mut heap, list, new_node);
        } else {
            list = append_to_list(&mut heap, list, new_node);
        }
    }

    heap.gc();

    let mut finger = heap.refs.get_option(Some(heap.refs.get(&list)));

    let expected = [4_u16, 2_u16, 0_u16, 1_u16, 3_u16];
    let mut i = 0_u8;
    while let Some(node) = finger {
        let node = heap.objs.get(&node);
        assert_eq!(node.get_int(&heap.objs, 0) as u16, expected[i as usize]);
        i += 1;
        finger = heap.refs.get_option(node.get_ref(&heap.objs, 0));
    }
    assert_eq!(i, 5);
}

#[test]
fn allocate_and_read_back() {
    let mut heap = init_heap();
    let obj = heap.objs.malloc(3, 2).unwrap();
    for i in 0..3 {
        obj.set_int(&mut heap.objs, i, i * 100);
    }
    for j in 0..2 {
        obj.set_ref(&mut heap.objs, j, None);
    }
    assert_eq!(obj.get_int(&heap.objs, 0), 0);
    assert_eq!(obj.get_int(&heap.objs, 1), 100);
    assert_eq!(obj.get_int(&heap.objs, 2), 200);
    assert!(obj.get_ref(&heap.objs, 0).is_none());
    assert!(obj.get_ref(&heap.objs, 1).is_none());
    assert_eq!(heap.objs.free_offset, HEADER_SIZE + 3 + 2);
}

#[test]
fn fresh_object_is_zeroed() {
    let mut heap = init_heap();
    let first = heap.objs.malloc(2, 1).unwrap();
    first.set_int(&mut heap.objs, 0, 7);
    first.set_int(&mut heap.objs, 1, 9);
    let obj = heap.objs.malloc(4, 3).unwrap();
    for i in 0..4 {
        assert_eq!(obj.get_int(&heap.objs, i), 0);
    }
    for j in 0..3 {
        assert!(obj.get_ref(&heap.objs, j).is_none());
    }
}

#[test]
fn out_of_memory_is_recoverable() {
    let mut heap = init_heap();
    // Fill the heap with one-int one-ref objects until allocation fails.
    let mut count = 0_usize;
    loop {
        match heap.objs.malloc(1, 1) {
            Some(_) => count += 1,
            None => break,
        }
    }
    assert_eq!(count, MEM_SIZE / (HEADER_SIZE + 2));
    // No safe handles: everything is garbage. Collect and allocate again.
    heap.gc();
    assert_eq!(heap.objs.free_offset, 0);
    assert!(heap.objs.malloc(1, 1).is_some());
}

#[test]
fn safe_handle_rewritten_after_gc() {
    let mut heap = init_heap();
    // garbage below the pinned object, so the pinned object must slide
    let _garbage = heap.objs.malloc(5, 0).unwrap();
    let obj = heap.objs.malloc(2, 1).unwrap();
    obj.set_int(&mut heap.objs, 0, 11);
    obj.set_int(&mut heap.objs, 1, 22);
    let pre_gc_offset = obj.off;
    let obj_ref = obj.to_heap_ref();
    let safe = heap.refs.get_safe(&obj_ref);

    heap.gc();

    let reloaded_ref = heap.refs.get(&safe);
    assert_ne!(reloaded_ref.off, pre_gc_offset);
    assert_eq!(reloaded_ref.off, 0);
    let reloaded = heap.objs.get(&reloaded_ref);
    assert_eq!(reloaded.get_int(&heap.objs, 0), 11);
    assert_eq!(reloaded.get_int(&heap.objs, 1), 22);
    assert_eq!(heap.objs.free_offset, HEADER_SIZE + 2 + 1);
}

#[test]
fn gc_twice_is_gc_once() {
    let mut heap = init_heap();
    let _garbage = heap.objs.malloc(3, 3).unwrap();
    let a = heap.objs.malloc(1, 1).unwrap();
    a.set_int(&mut heap.objs, 0, 5);
    let b = heap.objs.malloc(1, 1).unwrap();
    b.set_int(&mut heap.objs, 0, 6);
    let a_ref = a.to_heap_ref();
    b.set_ref(&mut heap.objs, 0, Some(a_ref));
    let b_ref = b.to_heap_ref();
    let _safe = heap.refs.get_safe(&b_ref);

    heap.gc();
    let free_after_one = heap.objs.free_offset;
    let slot_after_one = {
        let r = heap.refs.get(&_safe);
        r.off
    };

    heap.gc();
    assert_eq!(heap.objs.free_offset, free_after_one);
    let r = heap.refs.get(&_safe);
    assert_eq!(r.off, slot_after_one);
    // contents of every surviving field unchanged
    let b2 = heap.objs.get(&r);
    assert_eq!(b2.get_int(&heap.objs, 0), 6);
    let a2_ref = b2.get_ref(&heap.objs, 0).unwrap();
    let a2 = heap.objs.get(&a2_ref);
    assert_eq!(a2.get_int(&heap.objs, 0), 5);
    assert!(a2.get_ref(&heap.objs, 0).is_none());
}

#[test]
fn set_get_int_round_trip() {
    let mut heap = init_heap();
    let obj = heap.objs.malloc(4, 0).unwrap();
    obj.set_int(&mut heap.objs, 2, 12345);
    assert_eq!(obj.get_int(&heap.objs, 2), 12345);
}

#[test]
fn set_get_ref_round_trip() {
    let mut heap = init_heap();
    let target = heap.objs.malloc(1, 0).unwrap();
    let target_off = target.off;
    let obj = heap.objs.malloc(0, 2).unwrap();
    let target_ref = target.to_heap_ref();
    obj.set_ref(&mut heap.objs, 1, Some(target_ref));
    let back = obj.get_ref(&heap.objs, 1).unwrap();
    assert_eq!(back.off, target_off);
}

#[test]
fn safe_handle_table_first_fit() {
    let mut heap = init_heap();
    let obj = heap.objs.malloc(1, 0).unwrap();
    let r = obj.to_heap_ref();
    let s0 = heap.refs.get_safe(&r);
    let s1 = heap.refs.get_safe(&r);
    let s2 = heap.refs.get_safe(&r);
    assert_eq!(s0.handle_idx, 0);
    assert_eq!(s1.handle_idx, 1);
    assert_eq!(s2.handle_idx, 2);
    heap.refs.release_safe(s1);
    let s1_again = heap.refs.get_safe(&r);
    assert_eq!(s1_again.handle_idx, 1);
    assert_eq!(MAX_SAFE_REFS, 10);
}

#[test]
fn malloc_fails_only_when_full() {
    let mut heap = init_heap();
    // an object exactly filling the heap succeeds
    let obj = heap.objs.malloc(MEM_SIZE - HEADER_SIZE, 0);
    assert!(obj.is_some());
    assert_eq!(heap.objs.free_offset, MEM_SIZE);
    assert!(heap.objs.malloc(0, 0).is_none());
}

#[test]
fn iterator_walks_all_objects() {
    let mut heap = init_heap();
    let sizes = [(1, 1), (3, 0), (0, 2)];
    for (ni, nr) in sizes {
        heap.objs.malloc(ni, nr).unwrap();
    }
    let mut it = HeapIteratorMut::new();
    let mut seen = 0_usize;
    let mut summed = 0_usize;
    while let Some(obj) = it.next(&heap.objs) {
        assert_eq!(obj.off, summed);
        let (ni, nr) = sizes[seen];
        summed += HEADER_SIZE + ni + nr;
        seen += 1;
    }
    assert_eq!(seen, 3);
    // the packed objects account for the bump offset exactly
    assert_eq!(summed, heap.objs.free_offset);
}
