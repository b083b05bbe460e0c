//! The interpreter's stack-frame object, laid out inside the heap.
//!
//! A frame is an ordinary heap object. Its int fields hold, in order, the
//! seven fixed header slots (program counter, the two stack pointers, the
//! local counts and the stack capacities), then the integer operand stack,
//! then the integer locals. Its ref fields hold the parent-frame link, then
//! the reference operand stack, then the reference locals. Each stack grows
//! upward from just after its header region; each stack pointer names the
//! slot of the current top, so the first slot of each stack region stays
//! unused.

use vstd::prelude::*;

use crate::heap::{
    layout_preserved, index_at, is_obj_start, Heap, HeapInt, HeapMemory, HeapObj, HeapObject,
    HeapRef, SafeHeapRef, HEADER_SIZE, MAX_SAFE_REFS, MEM_SIZE,
};
use crate::heap::{init_heap, lemma_obj_size_bound};

verus! {

pub const I_IDX_PC: usize = 0;
pub const I_IDX_INT_SP: usize = 1;
pub const I_IDX_REF_SP: usize = 2;
pub const I_IDX_NR_INT_LOCAL: usize = 3;
pub const I_IDX_NR_REF_LOCAL: usize = 4;
pub const I_IDX_MAX_INTSTACK: usize = 5;
pub const I_IDX_MAX_REFSTACK: usize = 6;
/// First int slot of the integer operand stack; also the number of fixed
/// int header slots.
pub const I_IDX_INTSTACK_BASE: usize = 7;
pub const R_IDX_PARENT_FRAME: usize = 0;
/// First ref slot of the reference operand stack; also the number of fixed
/// ref header slots.
pub const R_IDX_REFSTACK_BASE: usize = 1;

/// One activation record of the interpreter, viewed through a mutating
/// handle to its underlying heap object.
pub struct Stackframe {
    pub heapobj: HeapObj,
}

/// Int fields of the frame object starting at `off`.
pub open spec fn frame_ints(mem: &HeapMemory, off: int) -> Seq<HeapInt> {
    mem@[index_at(mem@, off)].ints@
}

/// Ref fields of the frame object starting at `off`.
pub open spec fn frame_refs(mem: &HeapMemory, off: int) -> Seq<Option<usize>> {
    mem@[index_at(mem@, off)].refs@
}

pub open spec fn frame_pc(mem: &HeapMemory, off: int) -> HeapInt {
    frame_ints(mem, off)[I_IDX_PC as int]
}

pub open spec fn frame_int_sp(mem: &HeapMemory, off: int) -> HeapInt {
    frame_ints(mem, off)[I_IDX_INT_SP as int]
}

pub open spec fn frame_ref_sp(mem: &HeapMemory, off: int) -> HeapInt {
    frame_ints(mem, off)[I_IDX_REF_SP as int]
}

pub open spec fn frame_nr_int_local(mem: &HeapMemory, off: int) -> HeapInt {
    frame_ints(mem, off)[I_IDX_NR_INT_LOCAL as int]
}

pub open spec fn frame_nr_ref_local(mem: &HeapMemory, off: int) -> HeapInt {
    frame_ints(mem, off)[I_IDX_NR_REF_LOCAL as int]
}

pub open spec fn frame_max_intstack(mem: &HeapMemory, off: int) -> HeapInt {
    frame_ints(mem, off)[I_IDX_MAX_INTSTACK as int]
}

pub open spec fn frame_max_refstack(mem: &HeapMemory, off: int) -> HeapInt {
    frame_ints(mem, off)[I_IDX_MAX_REFSTACK as int]
}

/// Int local `idx` lives after the integer stack's maximum reserved extent.
pub open spec fn frame_int_local(mem: &HeapMemory, off: int, idx: int) -> HeapInt {
    frame_ints(mem, off)[I_IDX_INTSTACK_BASE + frame_max_intstack(mem, off) + idx]
}

/// Ref local `idx` lives after the reference stack's maximum reserved extent.
pub open spec fn frame_ref_local(mem: &HeapMemory, off: int, idx: int) -> Option<usize> {
    frame_refs(mem, off)[R_IDX_REFSTACK_BASE + frame_max_refstack(mem, off) + idx]
}

/// The object starting at `off` is a well-formed frame: its field counts
/// match the header slots and both stack pointers are inside their stacks.
pub open spec fn frame_wf(mem: &HeapMemory, off: int) -> bool {
    &&& is_obj_start(mem@, off)
    &&& frame_ints(mem, off).len() == I_IDX_INTSTACK_BASE + frame_max_intstack(mem, off)
        + frame_nr_int_local(mem, off)
    &&& frame_refs(mem, off).len() == R_IDX_REFSTACK_BASE + frame_max_refstack(mem, off)
        + frame_nr_ref_local(mem, off)
    &&& frame_int_sp(mem, off) < frame_max_intstack(mem, off)
    &&& frame_ref_sp(mem, off) < frame_max_refstack(mem, off)
}

/// Effect of a push on the frame's int fields: write the stack slot above
/// the top, then advance the stack pointer.
pub open spec fn push_int_spec(ints: Seq<HeapInt>, val: HeapInt) -> Seq<HeapInt> {
    let sp = ints[I_IDX_INT_SP as int] as int;
    ints.update(I_IDX_INTSTACK_BASE + sp + 1, val).update(
        I_IDX_INT_SP as int,
        (sp + 1) as usize,
    )
}

/// The value a pop returns: the slot the stack pointer names.
pub open spec fn pop_int_result(ints: Seq<HeapInt>) -> HeapInt {
    ints[I_IDX_INTSTACK_BASE + ints[I_IDX_INT_SP as int]]
}

/// Effect of a pop on the frame's int fields: retreat the stack pointer.
pub open spec fn pop_int_spec(ints: Seq<HeapInt>) -> Seq<HeapInt> {
    ints.update(I_IDX_INT_SP as int, (ints[I_IDX_INT_SP as int] - 1) as usize)
}

/// Effect of a ref push on the frame's ref fields.
pub open spec fn push_ref_spec(refs: Seq<Option<usize>>, sp: int, val: Option<usize>) -> Seq<
    Option<usize>,
> {
    refs.update(R_IDX_REFSTACK_BASE + sp + 1, val)
}

/// The value a ref pop returns.
pub open spec fn pop_ref_result(refs: Seq<Option<usize>>, sp: int) -> Option<usize> {
    refs[R_IDX_REFSTACK_BASE + sp]
}

impl Stackframe {
    /// Allocate and initialize a frame object: field counts per the fixed
    /// layout, program counter and both stack pointers zero, the requested
    /// counts and capacities recorded in the header slots, every stack and
    /// local slot zero or null. The caller must leave room in the heap and
    /// ask for at least one slot per stack (exhausting either resource is a
    /// fatal error).
    pub fn create(
        heapmemory: &mut HeapMemory,
        local_ints: usize,
        max_intstack: usize,
        local_refs: usize,
        max_refstack: usize,
    ) -> (frame: Stackframe)
        requires
            old(heapmemory).wf(),
            1 <= max_intstack,
            1 <= max_refstack,
            HEADER_SIZE + (I_IDX_INTSTACK_BASE + max_intstack + local_ints) + (
            R_IDX_REFSTACK_BASE + max_refstack + local_refs) <= MEM_SIZE - old(
                heapmemory,
            ).free_offset,
        ensures
            final(heapmemory).wf(),
            frame.heapobj.off == old(heapmemory).free_offset,
            frame_wf(final(heapmemory), frame.heapobj.off as int),
            final(heapmemory)@.len() == old(heapmemory)@.len() + 1,
            forall|i: int|
                0 <= i < old(heapmemory)@.len() ==> final(heapmemory)@[i] == old(heapmemory)@[i],
            forall|i: int|
                0 <= i <= old(heapmemory)@.len() ==> start_of_eq(
                    final(heapmemory)@,
                    old(heapmemory)@,
                    i,
                ),
            final(heapmemory).free_offset == old(heapmemory).free_offset + HEADER_SIZE + (
            I_IDX_INTSTACK_BASE + max_intstack + local_ints) + (R_IDX_REFSTACK_BASE + max_refstack
                + local_refs),
            frame_pc(final(heapmemory), frame.heapobj.off as int) == 0,
            frame_int_sp(final(heapmemory), frame.heapobj.off as int) == 0,
            frame_ref_sp(final(heapmemory), frame.heapobj.off as int) == 0,
            frame_nr_int_local(final(heapmemory), frame.heapobj.off as int) == local_ints,
            frame_nr_ref_local(final(heapmemory), frame.heapobj.off as int) == local_refs,
            frame_max_intstack(final(heapmemory), frame.heapobj.off as int) == max_intstack,
            frame_max_refstack(final(heapmemory), frame.heapobj.off as int) == max_refstack,
            forall|k: int|
                I_IDX_INTSTACK_BASE <= k < frame_ints(
                    final(heapmemory),
                    frame.heapobj.off as int,
                ).len() ==> frame_ints(final(heapmemory), frame.heapobj.off as int)[k] == 0,
            forall|k: int|
                0 <= k < frame_refs(final(heapmemory), frame.heapobj.off as int).len()
                    ==> frame_refs(final(heapmemory), frame.heapobj.off as int)[k] is None,
    {
        let nr_of_ints = I_IDX_INTSTACK_BASE + max_intstack + local_ints;
        let nr_of_refs = R_IDX_REFSTACK_BASE + max_refstack + local_refs;
        let allocated = heapmemory.malloc(nr_of_ints, nr_of_refs);
        match allocated {
            None => {
                proof {
                    assert(false);
                }
                Stackframe { heapobj: HeapObj { off: 0 } }
            },
            Some(heapobj) => {
                heapobj.set_int(heapmemory, I_IDX_PC, 0);
                heapobj.set_int(heapmemory, I_IDX_INT_SP, 0);
                heapobj.set_int(heapmemory, I_IDX_REF_SP, 0);
                heapobj.set_int(heapmemory, I_IDX_NR_INT_LOCAL, local_ints);
                heapobj.set_int(heapmemory, I_IDX_NR_REF_LOCAL, local_refs);
                heapobj.set_int(heapmemory, I_IDX_MAX_INTSTACK, max_intstack);
                heapobj.set_int(heapmemory, I_IDX_MAX_REFSTACK, max_refstack);
                Stackframe { heapobj }
            },
        }
    }

    /// The frame object's start offset is an object start of the heap.
    pub open spec fn valid(&self, mem: &HeapMemory) -> bool {
        self.heapobj.valid(mem)
    }

    pub open spec fn off(&self) -> int {
        self.heapobj.off as int
    }

    /// Parent-frame link: `None` for the bottom frame.
    pub fn get_parent_frame(&self, mem: &HeapMemory) -> (r: Option<HeapRef>)
        requires
            mem.wf(),
            frame_wf(mem, self.off()),
        ensures
            r is Some <==> frame_refs(mem, self.off())[R_IDX_PARENT_FRAME as int] is Some,
            r matches Some(h) ==> {
                &&& frame_refs(mem, self.off())[R_IDX_PARENT_FRAME as int] == Some(h.off)
                &&& h.valid(mem)
            },
    {
        proof {
            frame_len_bound(mem, self.off());
        }
        self.heapobj.get_ref(mem, R_IDX_PARENT_FRAME)
    }

    pub fn set_parent_frame(&self, mem: &mut HeapMemory, val: HeapRef)
        requires
            old(mem).wf(),
            frame_wf(old(mem), self.off()),
            val.valid(old(mem)),
        ensures
            final(mem).wf(),
            frame_wf(final(mem), self.off()),
            layout_preserved(old(mem)@, final(mem)@),
            final(mem).free_offset == old(mem).free_offset,
            forall|k: int|
                0 <= k < old(mem)@.len() && k != index_at(old(mem)@, self.off()) ==> final(mem)@[k] == old(mem)@[k],
            frame_ints(final(mem), self.off()) == frame_ints(old(mem), self.off()),
            frame_refs(final(mem), self.off()) == frame_refs(old(mem), self.off()).update(
                R_IDX_PARENT_FRAME as int,
                Some(val.off),
            ),
    {
        proof {
            frame_len_bound(old(mem), self.off());
        }
        self.heapobj.set_ref(mem, R_IDX_PARENT_FRAME, Some(val));
    }

    pub fn get_pc(&self, mem: &HeapMemory) -> (r: HeapInt)
        requires
            mem.wf(),
            frame_wf(mem, self.off()),
        ensures
            r == frame_pc(mem, self.off()),
    {
        proof {
            frame_len_bound(mem, self.off());
        }
        self.heapobj.get_int(mem, I_IDX_PC)
    }

    pub fn set_pc(&self, mem: &mut HeapMemory, val: HeapInt)
        requires
            old(mem).wf(),
            frame_wf(old(mem), self.off()),
        ensures
            final(mem).wf(),
            frame_wf(final(mem), self.off()),
            layout_preserved(old(mem)@, final(mem)@),
            final(mem).free_offset == old(mem).free_offset,
            forall|k: int|
                0 <= k < old(mem)@.len() && k != index_at(old(mem)@, self.off()) ==> final(mem)@[k] == old(mem)@[k],
            frame_refs(final(mem), self.off()) == frame_refs(old(mem), self.off()),
            frame_ints(final(mem), self.off()) == frame_ints(old(mem), self.off()).update(
                I_IDX_PC as int,
                val,
            ),
            frame_pc(final(mem), self.off()) == val,
    {
        proof {
            frame_len_bound(old(mem), self.off());
        }
        self.heapobj.set_int(mem, I_IDX_PC, val);
    }

    /// Read integer local `idx`; the index must be below the frame's local
    /// count (a violation is a fatal error).
    pub fn get_int_local(&self, mem: &HeapMemory, idx: usize) -> (r: HeapInt)
        requires
            mem.wf(),
            frame_wf(mem, self.off()),
            idx < frame_nr_int_local(mem, self.off()),
        ensures
            r == frame_int_local(mem, self.off(), idx as int),
    {
        proof {
            frame_len_bound(mem, self.off());
        }
        let max_intstack = self.heapobj.get_int(mem, I_IDX_MAX_INTSTACK);
        self.heapobj.get_int(mem, I_IDX_INTSTACK_BASE + max_intstack + idx)
    }

    pub fn set_int_local(&self, mem: &mut HeapMemory, idx: usize, val: HeapInt)
        requires
            old(mem).wf(),
            frame_wf(old(mem), self.off()),
            idx < frame_nr_int_local(old(mem), self.off()),
        ensures
            final(mem).wf(),
            frame_wf(final(mem), self.off()),
            layout_preserved(old(mem)@, final(mem)@),
            final(mem).free_offset == old(mem).free_offset,
            forall|k: int|
                0 <= k < old(mem)@.len() && k != index_at(old(mem)@, self.off()) ==> final(mem)@[k] == old(mem)@[k],
            frame_refs(final(mem), self.off()) == frame_refs(old(mem), self.off()),
            frame_ints(final(mem), self.off()) == frame_ints(old(mem), self.off()).update(
                I_IDX_INTSTACK_BASE + frame_max_intstack(old(mem), self.off()) + idx,
                val,
            ),
            frame_int_local(final(mem), self.off(), idx as int) == val,
    {
        proof {
            frame_len_bound(old(mem), self.off());
        }
        let max_intstack = self.heapobj.get_int(mem, I_IDX_MAX_INTSTACK);
        self.heapobj.set_int(mem, I_IDX_INTSTACK_BASE + max_intstack + idx, val);
    }

    /// Read reference local `idx`.
    pub fn get_ref_local(&self, mem: &HeapMemory, idx: usize) -> (r: Option<HeapRef>)
        requires
            mem.wf(),
            frame_wf(mem, self.off()),
            idx < frame_nr_ref_local(mem, self.off()),
        ensures
            r is Some <==> frame_ref_local(mem, self.off(), idx as int) is Some,
            r matches Some(h) ==> {
                &&& frame_ref_local(mem, self.off(), idx as int) == Some(h.off)
                &&& h.valid(mem)
            },
    {
        proof {
            frame_len_bound(mem, self.off());
        }
        let max_refstack = self.heapobj.get_int(mem, I_IDX_MAX_REFSTACK);
        self.heapobj.get_ref(mem, R_IDX_REFSTACK_BASE + max_refstack + idx)
    }

    pub fn set_ref_local(&self, mem: &mut HeapMemory, idx: usize, val: Option<HeapRef>)
        requires
            old(mem).wf(),
            frame_wf(old(mem), self.off()),
            idx < frame_nr_ref_local(old(mem), self.off()),
            val matches Some(h) ==> h.valid(old(mem)),
        ensures
            final(mem).wf(),
            frame_wf(final(mem), self.off()),
            layout_preserved(old(mem)@, final(mem)@),
            final(mem).free_offset == old(mem).free_offset,
            forall|k: int|
                0 <= k < old(mem)@.len() && k != index_at(old(mem)@, self.off()) ==> final(mem)@[k] == old(mem)@[k],
            frame_ints(final(mem), self.off()) == frame_ints(old(mem), self.off()),
            frame_refs(final(mem), self.off()) == frame_refs(old(mem), self.off()).update(
                R_IDX_REFSTACK_BASE + frame_max_refstack(old(mem), self.off()) + idx,
                match val {
                    None => None,
                    Some(h) => Some(h.off),
                },
            ),
    {
        proof {
            frame_len_bound(old(mem), self.off());
        }
        let max_refstack = self.heapobj.get_int(mem, I_IDX_MAX_REFSTACK);
        self.heapobj.set_ref(mem, R_IDX_REFSTACK_BASE + max_refstack + idx, val);
    }

    /// Push onto the integer operand stack. The stack must have room: the
    /// interpreter treats overflow as a fatal error.
    pub fn push_int(&self, mem: &mut HeapMemory, val: HeapInt)
        requires
            old(mem).wf(),
            frame_wf(old(mem), self.off()),
            frame_int_sp(old(mem), self.off()) + 1 < frame_max_intstack(old(mem), self.off()),
        ensures
            final(mem).wf(),
            frame_wf(final(mem), self.off()),
            layout_preserved(old(mem)@, final(mem)@),
            final(mem).free_offset == old(mem).free_offset,
            forall|k: int|
                0 <= k < old(mem)@.len() && k != index_at(old(mem)@, self.off()) ==> final(mem)@[k] == old(mem)@[k],
            frame_refs(final(mem), self.off()) == frame_refs(old(mem), self.off()),
            frame_ints(final(mem), self.off()) == push_int_spec(
                frame_ints(old(mem), self.off()),
                val,
            ),
            frame_int_sp(final(mem), self.off()) == frame_int_sp(old(mem), self.off()) + 1,
            pop_int_result(frame_ints(final(mem), self.off())) == val,
    {
        proof {
            frame_len_bound(old(mem), self.off());
        }
        let int_sp = self.heapobj.get_int(mem, I_IDX_INT_SP);
        self.heapobj.set_int(mem, I_IDX_INTSTACK_BASE + int_sp + 1, val);
        self.heapobj.set_int(mem, I_IDX_INT_SP, int_sp + 1);
    }

    /// Pop from the integer operand stack and return the popped value. The
    /// stack must be non-empty: underflow is a fatal error.
    pub fn pop_int(&self, mem: &mut HeapMemory) -> (r: HeapInt)
        requires
            old(mem).wf(),
            frame_wf(old(mem), self.off()),
            frame_int_sp(old(mem), self.off()) >= 1,
        ensures
            final(mem).wf(),
            frame_wf(final(mem), self.off()),
            layout_preserved(old(mem)@, final(mem)@),
            final(mem).free_offset == old(mem).free_offset,
            forall|k: int|
                0 <= k < old(mem)@.len() && k != index_at(old(mem)@, self.off()) ==> final(mem)@[k] == old(mem)@[k],
            frame_refs(final(mem), self.off()) == frame_refs(old(mem), self.off()),
            r == pop_int_result(frame_ints(old(mem), self.off())),
            frame_ints(final(mem), self.off()) == pop_int_spec(frame_ints(old(mem), self.off())),
            frame_int_sp(final(mem), self.off()) == frame_int_sp(old(mem), self.off()) - 1,
    {
        proof {
            frame_len_bound(old(mem), self.off());
        }
        let int_sp = self.heapobj.get_int(mem, I_IDX_INT_SP);
        let r = self.heapobj.get_int(mem, I_IDX_INTSTACK_BASE + int_sp);
        self.heapobj.set_int(mem, I_IDX_INT_SP, int_sp - 1);
        r
    }

    /// Push onto the reference operand stack.
    pub fn push_ref(&self, mem: &mut HeapMemory, val: Option<HeapRef>)
        requires
            old(mem).wf(),
            frame_wf(old(mem), self.off()),
            frame_ref_sp(old(mem), self.off()) + 1 < frame_max_refstack(old(mem), self.off()),
            val matches Some(h) ==> h.valid(old(mem)),
        ensures
            final(mem).wf(),
            frame_wf(final(mem), self.off()),
            layout_preserved(old(mem)@, final(mem)@),
            final(mem).free_offset == old(mem).free_offset,
            forall|k: int|
                0 <= k < old(mem)@.len() && k != index_at(old(mem)@, self.off()) ==> final(mem)@[k] == old(mem)@[k],
            frame_refs(final(mem), self.off()) == push_ref_spec(
                frame_refs(old(mem), self.off()),
                frame_ref_sp(old(mem), self.off()) as int,
                match val {
                    None => None,
                    Some(h) => Some(h.off),
                },
            ),
            frame_ints(final(mem), self.off()) == frame_ints(old(mem), self.off()).update(
                I_IDX_REF_SP as int,
                (frame_ref_sp(old(mem), self.off()) + 1) as usize,
            ),
            frame_ref_sp(final(mem), self.off()) == frame_ref_sp(old(mem), self.off()) + 1,
            pop_ref_result(
                frame_refs(final(mem), self.off()),
                frame_ref_sp(final(mem), self.off()) as int,
            ) == (match val {
                None => None::<usize>,
                Some(h) => Some(h.off),
            }),
    {
        proof {
            frame_len_bound(old(mem), self.off());
        }
        let ref_sp = self.heapobj.get_int(mem, I_IDX_REF_SP);
        self.heapobj.set_int(mem, I_IDX_REF_SP, ref_sp + 1);
        self.heapobj.set_ref(mem, R_IDX_REFSTACK_BASE + ref_sp + 1, val);
    }

    /// Pop from the reference operand stack and return the popped value.
    pub fn pop_ref(&self, mem: &mut HeapMemory) -> (r: Option<HeapRef>)
        requires
            old(mem).wf(),
            frame_wf(old(mem), self.off()),
            frame_ref_sp(old(mem), self.off()) >= 1,
        ensures
            final(mem).wf(),
            frame_wf(final(mem), self.off()),
            layout_preserved(old(mem)@, final(mem)@),
            final(mem).free_offset == old(mem).free_offset,
            forall|k: int|
                0 <= k < old(mem)@.len() && k != index_at(old(mem)@, self.off()) ==> final(mem)@[k] == old(mem)@[k],
            frame_refs(final(mem), self.off()) == frame_refs(old(mem), self.off()),
            r is Some <==> pop_ref_result(
                frame_refs(old(mem), self.off()),
                frame_ref_sp(old(mem), self.off()) as int,
            ) is Some,
            r matches Some(h) ==> {
                &&& pop_ref_result(
                    frame_refs(old(mem), self.off()),
                    frame_ref_sp(old(mem), self.off()) as int,
                ) == Some(h.off)
                &&& h.valid(final(mem))
            },
            frame_ints(final(mem), self.off()) == frame_ints(old(mem), self.off()).update(
                I_IDX_REF_SP as int,
                (frame_ref_sp(old(mem), self.off()) - 1) as usize,
            ),
            frame_ref_sp(final(mem), self.off()) == frame_ref_sp(old(mem), self.off()) - 1,
    {
        proof {
            frame_len_bound(old(mem), self.off());
        }
        let ref_sp = self.heapobj.get_int(mem, I_IDX_REF_SP);
        self.heapobj.set_int(mem, I_IDX_REF_SP, ref_sp - 1);
        self.heapobj.get_ref(mem, R_IDX_REFSTACK_BASE + ref_sp)
    }
}

/// The virtual machine: the heap plus a safe handle to the frame the
/// interpreter is currently executing. The frame is pinned through the
/// safe-handle table so that it survives collections.
pub struct JVM {
    pub heap: Heap,
    pub current_stack_frame: SafeHeapRef,
}

impl JVM {
    /// The heap is well formed and the current-frame handle occupies a
    /// table slot that addresses a well-formed frame object.
    pub open spec fn wf(&self) -> bool {
        &&& self.heap.wf()
        &&& (self.current_stack_frame.handle_idx as int) < self.heap.refs.safe_refs@.len()
        &&& self.heap.refs.safe_refs@[self.current_stack_frame.handle_idx as int] matches Some(off)
            && frame_wf(&self.heap.objs, off as int)
    }

    /// A fresh machine: a fresh heap holding one frame object for the entry
    /// method, pinned in the first safe-handle slot.
    pub fn create(
        main_local_ints: usize,
        main_max_int_stack: usize,
        main_local_refs: usize,
        main_max_ref_stack: usize,
    ) -> (vm: JVM)
        requires
            1 <= main_max_int_stack,
            1 <= main_max_ref_stack,
            HEADER_SIZE + (I_IDX_INTSTACK_BASE + main_max_int_stack + main_local_ints) + (
            R_IDX_REFSTACK_BASE + main_max_ref_stack + main_local_refs) <= MEM_SIZE,
        ensures
            vm.wf(),
            vm.current_stack_frame.handle_idx == 0,
            vm.heap.refs.safe_refs@[0] == Some(0usize),
            forall|i: int|
                1 <= i < MAX_SAFE_REFS ==> vm.heap.refs.safe_refs@[i] is None,
            vm.heap.objs@.len() == 1,
            frame_wf(&vm.heap.objs, 0),
            frame_pc(&vm.heap.objs, 0) == 0,
            frame_int_sp(&vm.heap.objs, 0) == 0,
            frame_ref_sp(&vm.heap.objs, 0) == 0,
            frame_nr_int_local(&vm.heap.objs, 0) == main_local_ints,
            frame_nr_ref_local(&vm.heap.objs, 0) == main_local_refs,
            frame_max_intstack(&vm.heap.objs, 0) == main_max_int_stack,
            frame_max_refstack(&vm.heap.objs, 0) == main_max_ref_stack,
    {
        let mut heap = init_heap();
        let main_frame = Stackframe::create(
            &mut heap.objs,
            main_local_ints,
            main_max_int_stack,
            main_local_refs,
            main_max_ref_stack,
        );
        let main_frame_ref = main_frame.heapobj.to_heap_ref();
        proof {
            assert(heap.refs.safe_refs@[0] is None);
        }
        let main_frame_safe_ref = heap.refs.get_safe(&main_frame_ref);
        proof {
            assert(main_frame_safe_ref.handle_idx == 0);
        }
        JVM { heap, current_stack_frame: main_frame_safe_ref }
    }

    /// Reload the current frame through its safe handle; the interpreter
    /// does this after every point at which a collection may have run.
    pub fn current_frame(&self) -> (f: Stackframe)
        requires
            self.wf(),
        ensures
            frame_wf(&self.heap.objs, f.off()),
            self.heap.refs.safe_refs@[self.current_stack_frame.handle_idx as int] == Some(
                f.heapobj.off,
            ),
    {
        let r = self.heap.refs.get(&self.current_stack_frame);
        let heapobj = self.heap.objs.get(&r);
        Stackframe { heapobj }
    }
}

/// Law: on a frame with room, pushing an int and then popping returns the
/// value pushed, and the frame's int fields return to their prior state but
/// for the slot above the restored top of stack.
pub proof fn lemma_push_pop_int_inverse(ints: Seq<HeapInt>, val: HeapInt)
    requires
        ints.len() <= MEM_SIZE,
        I_IDX_INTSTACK_BASE + ints[I_IDX_INT_SP as int] + 1 < ints.len(),
    ensures
        pop_int_result(push_int_spec(ints, val)) == val,
        pop_int_spec(push_int_spec(ints, val)) == ints.update(
            I_IDX_INTSTACK_BASE + ints[I_IDX_INT_SP as int] + 1,
            val,
        ),
        pop_int_spec(push_int_spec(ints, val))[I_IDX_INT_SP as int] == ints[I_IDX_INT_SP as int],
{
    let sp = ints[I_IDX_INT_SP as int] as int;
    assert(pop_int_spec(push_int_spec(ints, val)) =~= ints.update(
        I_IDX_INTSTACK_BASE + sp + 1,
        val,
    ));
}

/// Law: on a frame with room, pushing a ref and then popping it returns the
/// value pushed (the stack pointer after the push names the written slot).
pub proof fn lemma_push_pop_ref_inverse(refs: Seq<Option<usize>>, sp: int, val: Option<usize>)
    requires
        0 <= sp,
        R_IDX_REFSTACK_BASE + sp + 1 < refs.len(),
    ensures
        pop_ref_result(push_ref_spec(refs, sp, val), sp + 1) == val,
{
}

/// Law: operations on one frame never perturb another frame. Every frame
/// operation keeps the heap layout and changes at most the frame's own
/// object, so the header, stacks and locals of a frame at any other offset
/// read back unchanged.
pub proof fn lemma_frame_isolation(m1: HeapMemory, m2: HeapMemory, off: int, off2: int)
    requires
        m1.wf(),
        layout_preserved(m1@, m2@),
        is_obj_start(m1@, off),
        is_obj_start(m1@, off2),
        off2 != off,
        forall|k: int| 0 <= k < m1@.len() && k != index_at(m1@, off) ==> m2@[k] == m1@[k],
    ensures
        frame_ints(&m2, off2) == frame_ints(&m1, off2),
        frame_refs(&m2, off2) == frame_refs(&m1, off2),
{
    let t = index_at(m1@, off);
    let u = index_at(m1@, off2);
    assert(crate::heap::start_of(m1@, t) == off);
    assert(crate::heap::start_of(m1@, u) == off2);
}

/// Equality of one start offset between two heaps (a helper so the
/// preservation clauses of `create` can be stated without a nested trigger).
pub open spec fn start_of_eq(s1: Seq<HeapObject>, s2: Seq<HeapObject>, i: int) -> bool {
    crate::heap::start_of(s1, i) == crate::heap::start_of(s2, i)
}

/// A frame object's field vectors fit in the heap, so every slot index the
/// fixed layout uses stays within machine bounds.
proof fn frame_len_bound(mem: &HeapMemory, off: int)
    requires
        mem.wf(),
        frame_wf(mem, off),
    ensures
        frame_ints(mem, off).len() <= MEM_SIZE,
        frame_refs(mem, off).len() <= MEM_SIZE,
        mem@[index_at(mem@, off)].obj_wf(),
        0 <= index_at(mem@, off) < mem@.len(),
{
    let t = index_at(mem@, off);
    assert(0 <= t < mem@.len() && crate::heap::start_of(mem@, t) == off);
    lemma_obj_size_bound(mem@, t);
}

} // verus!
