use capevm::avrora::DebugChannel;
use capevm::jvm::{Stackframe, JVM};

fn exec_sadd(vm: &mut JVM) {
    let stackframe = vm.current_frame();

    let a = stackframe.pop_int(&mut vm.heap.objs);
    let b = stackframe.pop_int(&mut vm.heap.objs);
    stackframe.push_int(&mut vm.heap.objs, a + b);
}

fn exec_saload(vm: &mut JVM) {
    let stackframe = vm.current_frame();

    let idx = stackframe.pop_int(&mut vm.heap.objs);
    if let Some(array_ref) = stackframe.pop_ref(&mut vm.heap.objs) {
        let array = vm.heap.objs.get(&array_ref);
        let val = array.get_int(&vm.heap.objs, idx);
        vm.current_frame().push_int(&mut vm.heap.objs, val);
    } else {
        panic!("null reference on load");
    }
}

#[test]
fn test_sadd() {
    // Arrange
    let mut vm = JVM::create(10, 10, 10, 10);

    let stackframe = vm.current_frame();
    stackframe.push_int(&mut vm.heap.objs, 32);
    stackframe.push_int(&mut vm.heap.objs, 10);

    // Act
    exec_sadd(&mut vm);

    // Assert
    let stackframe = vm.current_frame();
    let val = stackframe.pop_int(&mut vm.heap.objs);
    assert_eq!(val, 42);
}

#[test]
fn test_saload() {
    // Arrange
    let mut vm = JVM::create(10, 10, 10, 10);

    let array = vm.heap.objs.malloc(10, 0).unwrap();
    array.set_int(&mut vm.heap.objs, 3, 42);
    let array_ref = array.to_heap_ref();

    let stackframe = vm.current_frame();

    stackframe.push_ref(&mut vm.heap.objs, Some(array_ref));
    stackframe.push_int(&mut vm.heap.objs, 3);

    // Act
    exec_saload(&mut vm);

    // Assert
    let stackframe = vm.current_frame();
    let val = stackframe.pop_int(&mut vm.heap.objs);
    assert_eq!(val, 42);
}

#[test]
fn push_pop_int_inverse() {
    let mut vm = JVM::create(2, 5, 2, 5);
    let frame = vm.current_frame();
    frame.push_int(&mut vm.heap.objs, 7);
    frame.push_int(&mut vm.heap.objs, 8);
    assert_eq!(frame.pop_int(&mut vm.heap.objs), 8);
    assert_eq!(frame.pop_int(&mut vm.heap.objs), 7);
}

#[test]
fn push_pop_ref_inverse() {
    let mut vm = JVM::create(2, 5, 2, 5);
    let target = vm.heap.objs.malloc(1, 0).unwrap();
    let off = target.off;
    let frame = vm.current_frame();
    frame.push_ref(&mut vm.heap.objs, None);
    frame.push_ref(&mut vm.heap.objs, Some(target.to_heap_ref()));
    let top = frame.pop_ref(&mut vm.heap.objs).unwrap();
    assert_eq!(top.off, off);
    assert!(frame.pop_ref(&mut vm.heap.objs).is_none());
}

#[test]
fn locals_and_pc() {
    let mut vm = JVM::create(4, 3, 2, 3);
    let frame = vm.current_frame();
    assert_eq!(frame.get_pc(&vm.heap.objs), 0);
    frame.set_pc(&mut vm.heap.objs, 17);
    assert_eq!(frame.get_pc(&vm.heap.objs), 17);
    assert_eq!(frame.get_int_local(&vm.heap.objs, 3), 0);
    frame.set_int_local(&mut vm.heap.objs, 3, 99);
    assert_eq!(frame.get_int_local(&vm.heap.objs, 3), 99);
    assert!(frame.get_ref_local(&vm.heap.objs, 1).is_none());
    let obj = vm.heap.objs.malloc(1, 0).unwrap();
    let obj_off = obj.off;
    frame.set_ref_local(&mut vm.heap.objs, 1, Some(obj.to_heap_ref()));
    let got = frame.get_ref_local(&vm.heap.objs, 1).unwrap();
    assert_eq!(got.off, obj_off);
}

#[test]
fn frames_are_isolated() {
    let mut heap = capevm::heap::init_heap();
    let frame_a = Stackframe::create(&mut heap.objs, 2, 4, 1, 3);
    let frame_b = Stackframe::create(&mut heap.objs, 2, 4, 1, 3);
    frame_a.push_int(&mut heap.objs, 1);
    frame_a.set_int_local(&mut heap.objs, 0, 50);
    frame_b.push_int(&mut heap.objs, 9);
    // frame_b's operations did not perturb frame_a
    assert_eq!(frame_a.get_int_local(&heap.objs, 0), 50);
    assert_eq!(frame_a.pop_int(&mut heap.objs), 1);
    assert_eq!(frame_b.pop_int(&mut heap.objs), 9);
}

#[test]
fn parent_frame_link() {
    let mut heap = capevm::heap::init_heap();
    let parent = Stackframe::create(&mut heap.objs, 1, 2, 1, 2);
    let parent_off = parent.heapobj.off;
    let child = Stackframe::create(&mut heap.objs, 1, 2, 1, 2);
    assert!(child.get_parent_frame(&heap.objs).is_none());
    child.set_parent_frame(&mut heap.objs, parent.heapobj.to_heap_ref());
    let link = child.get_parent_frame(&heap.objs).unwrap();
    assert_eq!(link.off, parent_off);
}

#[test]
fn debug_channel_write_order() {
    let mut channel = DebugChannel::new();
    channel.print_u16(0x1234);
    // payload bytes little-endian first, opcode byte last
    assert_eq!(channel.writes, vec![(1, 0x34), (2, 0x12), (0, 0x03)]);
    channel.print_i16(-2);
    assert_eq!(channel.writes[3..], [(1, 0xFE), (2, 0xFF), (0, 0x08)]);
    channel.print_u32_hex(0xDEADBEEF);
    assert_eq!(
        channel.writes[6..],
        [(1, 0xEF), (2, 0xBE), (3, 0xAD), (4, 0xDE), (0, 0x04)]
    );
    channel.print_sp();
    assert_eq!(channel.writes[11..], [(0, 0x0D)]);
    channel.print_ram_string(0x0100);
    assert_eq!(channel.writes[12..], [(1, 0x00), (2, 0x01), (0, 0x06)]);
}

#[test]
fn debug_channel_remaining_opcodes() {
    let mut channel = DebugChannel::new();
    channel.print_u16_hex(0xBEEF);
    assert_eq!(channel.writes, vec![(1, 0xEF), (2, 0xBE), (0, 0x01)]);
    channel.print_u32(0x01020304);
    assert_eq!(
        channel.writes[3..],
        [(1, 0x04), (2, 0x03), (3, 0x02), (4, 0x01), (0, 0x05)]
    );
    channel.print_i32(-1);
    assert_eq!(
        channel.writes[8..],
        [(1, 0xFF), (2, 0xFF), (3, 0xFF), (4, 0xFF), (0, 0x09)]
    );
    channel.print_r1();
    assert_eq!(channel.writes[13..], [(0, 0x0C)]);
    channel.print_pc();
    assert_eq!(channel.writes[14..], [(0, 0x12)]);
    channel.print_all_regs();
    assert_eq!(channel.writes[15..], [(0, 0x0E)]);
    channel.print_flash_string_fn(0x00010000);
    assert_eq!(
        channel.writes[16..],
        [(1, 0x00), (2, 0x00), (3, 0x01), (4, 0x00), (0, 0x0F)]
    );
}

#[test]
fn print_handle_address() {
    let mut heap = capevm::heap::init_heap();
    let _first = heap.objs.malloc(2, 0).unwrap();
    let second = heap.objs.malloc(1, 0).unwrap();
    let r = second.to_heap_ref();
    let mut channel = DebugChannel::new();
    r.avrora_print_address(&mut channel);
    // the second object starts right after the first: header plus two ints
    assert_eq!(channel.writes, vec![(1, 6), (2, 0), (0, 0x01)]);
}
