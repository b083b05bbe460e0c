//! The heap: a fixed-capacity word arena packing variable-sized objects,
//! a bump allocator, field accessors reached through handles, and the
//! fixed-size safe-handle table that forms the collector's root set.
//!
//! Every object lives at a word offset in `[0, free_offset)`; the objects
//! tile that range without gaps, so the offset of object `i` is the sum of
//! the sizes of the objects before it. A ref field holds either the null
//! sentinel (`None`) or the offset of the header of some live object.

use vstd::prelude::*;

verus! {

/// Number of slots in the safe-handle table.
pub const MAX_SAFE_REFS: usize = 10;
/// Heap capacity in words. The default target devotes 3 KiB of RAM to the
/// heap and a word there is two bytes wide.
pub const MEM_SIZE: usize = 1536;
/// Words occupied by an object header (color, shift, int count, ref count).
pub const HEADER_SIZE: usize = 4;

/// One machine word, the unit of an object's integer fields.
pub type HeapInt = usize;

/// Garbage-collector mark of one object. `White` is unreached, `Grey` is
/// reachable with children not yet scanned, `Black` is reachable and scanned.
#[derive(Clone, Copy, PartialEq, Eq, Structural)]
pub enum GCColor {
    White,
    Grey,
    Black,
}

/// Per-object metadata stored at the start of the object.
#[derive(Clone, Copy, PartialEq, Eq, Structural)]
pub struct ObjectHeader {
    pub gc_color: GCColor,
    pub gc_shift: usize,
    pub nr_of_ints: usize,
    pub nr_of_refs: usize,
}

/// One object as laid out in the arena: header, then `nr_of_ints` int
/// fields, then `nr_of_refs` ref fields.
pub struct HeapObject {
    pub header: ObjectHeader,
    pub ints: Vec<HeapInt>,
    pub refs: Vec<Option<usize>>,
}

impl HeapObject {
    /// The field vectors match the counts recorded in the header.
    pub open spec fn obj_wf(&self) -> bool {
        &&& self.header.nr_of_ints == self.ints@.len()
        &&& self.header.nr_of_refs == self.refs@.len()
    }

    /// Size of the object in words; constant for the object's lifetime.
    pub open spec fn size(&self) -> int {
        HEADER_SIZE + self.ints@.len() + self.refs@.len()
    }
}

/// Word offset at which object `i` starts: the sum of the sizes of the
/// objects before it (the packed sequence has no gaps).
pub open spec fn start_of(s: Seq<HeapObject>, i: int) -> int
    decreases i,
{
    if i <= 0 {
        0
    } else {
        start_of(s, i - 1) + s[i - 1].size()
    }
}

/// Total size in words of all objects in the heap.
pub open spec fn total_size(s: Seq<HeapObject>) -> int {
    start_of(s, s.len() as int)
}

/// `off` is the start offset of some object of `s`.
pub open spec fn is_obj_start(s: Seq<HeapObject>, off: int) -> bool {
    exists|i: int| 0 <= i < s.len() && start_of(s, i) == off
}

/// Index of the object starting at `off` (meaningful when `is_obj_start`).
pub open spec fn index_at(s: Seq<HeapObject>, off: int) -> int {
    choose|i: int| 0 <= i < s.len() && start_of(s, i) == off
}

pub proof fn lemma_start_of_le(s: Seq<HeapObject>, i: int, j: int)
    requires
        0 <= i <= j,
    ensures
        start_of(s, i) <= start_of(s, j),
    decreases j - i,
{
    if i < j {
        lemma_start_of_le(s, i, j - 1);
    }
}

pub proof fn lemma_start_of_lt(s: Seq<HeapObject>, i: int, j: int)
    requires
        0 <= i < j,
    ensures
        start_of(s, i) + HEADER_SIZE <= start_of(s, j),
    decreases j - i,
{
    if i < j - 1 {
        lemma_start_of_lt(s, i, j - 1);
    }
}

/// Start offsets are strictly increasing, so an offset determines the object.
pub proof fn lemma_start_inj(s: Seq<HeapObject>, i: int, j: int)
    requires
        0 <= i,
        0 <= j,
        start_of(s, i) == start_of(s, j),
    ensures
        i == j,
{
    if i < j {
        lemma_start_of_lt(s, i, j);
    }
    if j < i {
        lemma_start_of_lt(s, j, i);
    }
}

/// `start_of` only looks at the sizes of the objects before `i`.
pub proof fn lemma_start_of_agree(s1: Seq<HeapObject>, s2: Seq<HeapObject>, i: int)
    requires
        0 <= i,
        forall|k: int| 0 <= k < i ==> (#[trigger] s1[k]).size() == s2[k].size(),
    ensures
        start_of(s1, i) == start_of(s2, i),
    decreases i,
{
    if 0 < i {
        lemma_start_of_agree(s1, s2, i - 1);
    }
}

pub proof fn lemma_start_of_push(s: Seq<HeapObject>, o: HeapObject, i: int)
    requires
        0 <= i <= s.len(),
    ensures
        start_of(s.push(o), i) == start_of(s, i),
{
    lemma_start_of_agree(s.push(o), s, i);
}

/// The mutating handle: exclusive access to one object's fields. At most
/// one should be used per object at any time; every mutation goes through
/// an explicit `&mut` borrow of the heap, which enforces the discipline.
pub struct HeapObj {
    pub off: usize,
}

/// The read handle: shared read-only access to one object. Freely copyable.
#[derive(Clone, Copy)]
pub struct HeapRef {
    pub off: usize,
}

impl HeapRef {
    /// The handle addresses the header of an object of the heap.
    pub open spec fn valid(&self, mem: &HeapMemory) -> bool {
        is_obj_start(mem@, self.off as int)
    }
}

/// The GC-safe handle: an index into the safe-handle table. The collector
/// rewrites the table slot on compaction, so the handle survives a collection.
pub struct SafeHeapRef {
    pub handle_idx: u8,
}

/// The arena of objects plus the bump offset. Bytes (words) in
/// `[0, free_offset)` hold the packed objects; the rest is unused.
pub struct HeapMemory {
    pub free_offset: usize,
    pub objects: Vec<HeapObject>,
}

impl View for HeapMemory {
    type V = Seq<HeapObject>;

    open spec fn view(&self) -> Seq<HeapObject> {
        self.objects@
    }
}

/// Every non-null ref field of every object addresses the header of an object.
pub open spec fn all_refs_valid(s: Seq<HeapObject>) -> bool {
    forall|i: int, k: int|
        0 <= i < s.len() && 0 <= k < s[i].refs@.len() ==> ref_valid(
            s,
            #[trigger] s[i].refs@[k],
        )
}

pub open spec fn ref_valid(s: Seq<HeapObject>, r: Option<usize>) -> bool {
    r matches Some(t) ==> is_obj_start(s, t as int)
}

impl HeapMemory {
    /// The layout part of the invariant: the bump offset accounts for every
    /// object, everything fits in the fixed capacity, and the stored field
    /// counts match the fields. (During a collection, between the rewriting
    /// of references and compaction, this is all that holds: the rewritten
    /// references address the objects' positions after the slide.)
    pub open spec fn sized_wf(&self) -> bool {
        &&& self.free_offset == total_size(self@)
        &&& total_size(self@) <= MEM_SIZE
        &&& forall|i: int| 0 <= i < self@.len() ==> (#[trigger] self@[i]).obj_wf()
    }

    /// The heap's structural invariant: the layout part, and every ref
    /// field null or addressing the header of an object.
    pub open spec fn wf(&self) -> bool {
        &&& self.sized_wf()
        &&& all_refs_valid(self@)
    }

    /// Header of the object starting at `off`.
    pub open spec fn header_at(&self, off: int) -> ObjectHeader {
        self@[index_at(self@, off)].header
    }

    /// Int field `idx` of the object starting at `off`.
    pub open spec fn int_at(&self, off: int, idx: int) -> HeapInt {
        self@[index_at(self@, off)].ints@[idx]
    }

    /// Ref field `idx` of the object starting at `off`.
    pub open spec fn ref_at(&self, off: int, idx: int) -> Option<usize> {
        self@[index_at(self@, off)].refs@[idx]
    }

    /// Walk the packed objects to the one starting at `off`.
    #[verifier::loop_isolation(false)]
    pub(crate) fn locate(&self, off: usize) -> (i: usize)
        requires
            self.sized_wf(),
            is_obj_start(self@, off as int),
        ensures
            i < self@.len(),
            start_of(self@, i as int) == off,
            i == index_at(self@, off as int),
    {
        let n = self.objects.len();
        let ghost t = index_at(self@, off as int);
        proof {
            assert(0 <= t < self@.len() && start_of(self@, t) == off);
        }
        let mut i: usize = 0;
        let mut cur: usize = 0;
        while cur < off
            invariant
                0 <= i <= t < n,
                cur == start_of(self@, i as int),
                cur <= off,
            decreases off - cur,
        {
            proof {
                if i == t {
                    assert(false);
                }
                lemma_start_of_lt(self@, i as int, t as int);
                lemma_start_of_le(self@, i + 1, t as int);
                lemma_start_of_le(self@, i + 1, self@.len() as int);
            }
            let sz = self.objects[i].header.object_size();
            proof {
                assert(self@[i as int].obj_wf());
            }
            cur = cur + sz;
            i = i + 1;
        }
        proof {
            lemma_start_inj(self@, i as int, t);
        }
        i
    }

    /// The bump allocator. Computes the required size; fails with the
    /// out-of-memory result when the free region cannot hold it (the
    /// allocator never collects on its own), otherwise appends a fresh
    /// object -- color white, shift zero, counts as requested, every int
    /// field zero and every ref field null -- advances `free_offset` by the
    /// object's size and returns a mutating handle to the new object.
    #[verifier::loop_isolation(false)]
    pub fn malloc(&mut self, nr_of_ints: usize, nr_of_refs: usize) -> (r: Option<HeapObj>)
        requires
            old(self).wf(),
        ensures
            final(self).wf(),
            r is Some <==> HEADER_SIZE + nr_of_ints + nr_of_refs <= MEM_SIZE - old(
                self,
            ).free_offset,
            r is None ==> *final(self) == *old(self),
            r matches Some(h) ==> {
                &&& h.off == old(self).free_offset
                &&& is_obj_start(final(self)@, h.off as int)
                &&& final(self).free_offset == old(self).free_offset + HEADER_SIZE + nr_of_ints
                    + nr_of_refs
                &&& final(self)@.len() == old(self)@.len() + 1
                &&& forall|i: int| 0 <= i < old(self)@.len() ==> final(self)@[i] == old(self)@[i]
                &&& index_at(final(self)@, h.off as int) == old(self)@.len()
                &&& final(self)@.last().header == (ObjectHeader {
                    gc_color: GCColor::White,
                    gc_shift: 0,
                    nr_of_ints,
                    nr_of_refs,
                })
                &&& final(self)@.last().ints@ == Seq::new(nr_of_ints as nat, |i: int| 0usize)
                &&& final(self)@.last().refs@ == Seq::new(
                    nr_of_refs as nat,
                    |i: int| Option::<usize>::None,
                )
                &&& forall|i: int|
                    0 <= i <= old(self)@.len() ==> start_of(final(self)@, i) == start_of(
                        old(self)@,
                        i,
                    )
            },
    {
        if nr_of_ints > MEM_SIZE || nr_of_refs > MEM_SIZE {
            return None;
        }
        let requested_size = HEADER_SIZE + nr_of_ints + nr_of_refs;
        if requested_size > MEM_SIZE - self.free_offset {
            None
        } else {
            let mut ints: Vec<HeapInt> = Vec::new();
            while ints.len() < nr_of_ints
                invariant
                    ints@.len() <= nr_of_ints,
                    forall|i: int| 0 <= i < ints@.len() ==> ints@[i] == 0usize,
                decreases nr_of_ints - ints.len(),
            {
                ints.push(0);
            }
            let mut refs: Vec<Option<usize>> = Vec::new();
            while refs.len() < nr_of_refs
                invariant
                    refs@.len() <= nr_of_refs,
                    forall|i: int| 0 <= i < refs@.len() ==> refs@[i] is None,
                decreases nr_of_refs - refs.len(),
            {
                refs.push(None);
            }
            let header = ObjectHeader {
                gc_color: GCColor::White,
                gc_shift: 0,
                nr_of_ints,
                nr_of_refs,
            };
            let obj = HeapObject { header, ints, refs };
            let off = self.free_offset;
            self.objects.push(obj);
            self.free_offset = self.free_offset + requested_size;
            proof {
                let s0 = old(self)@;
                let s1 = self@;
                assert forall|i: int| 0 <= i <= s0.len() implies start_of(s1, i) == start_of(
                    s0,
                    i,
                ) by {
                    lemma_start_of_push(s0, s1.last(), i);
                }
                assert(s1[s0.len() as int].ints@ =~= Seq::new(nr_of_ints as nat, |i: int| 0usize));
                assert(s1[s0.len() as int].refs@ =~= Seq::new(
                    nr_of_refs as nat,
                    |i: int| Option::<usize>::None,
                ));
                assert(total_size(s1) == start_of(s1, s0.len() as int) + s1[s0.len() as int].size());
                assert(is_obj_start(s1, off as int));
                lemma_start_inj(s1, index_at(s1, off as int), s0.len() as int);
                assert forall|i: int, k: int|
                    0 <= i < s1.len() && 0 <= k < s1[i].refs@.len() implies ref_valid(
                    s1,
                    #[trigger] s1[i].refs@[k],
                ) by {
                    if i < s0.len() {
                        assert(ref_valid(s0, s0[i].refs@[k]));
                        if s0[i].refs@[k] is Some {
                            let t = s0[i].refs@[k]->0 as int;
                            let w = index_at(s0, t);
                            assert(0 <= w < s0.len() && start_of(s0, w) == t);
                            assert(start_of(s1, w) == t);
                        }
                    }
                }
            }
            Some(HeapObj { off })
        }
    }
}

/// Two heaps have the same layout: equally many objects, of equal sizes,
/// hence the same start offsets.
pub open spec fn same_layout(s1: Seq<HeapObject>, s2: Seq<HeapObject>) -> bool {
    &&& s1.len() == s2.len()
    &&& forall|i: int| 0 <= i < s1.len() ==> (#[trigger] s2[i]).size() == s1[i].size()
}

/// Consequences of an unchanged layout, spelled out for callers: start
/// offsets, the set of object starts, and the offset-to-index map all stay.
pub open spec fn layout_preserved(s1: Seq<HeapObject>, s2: Seq<HeapObject>) -> bool {
    &&& same_layout(s1, s2)
    &&& forall|i: int| 0 <= i <= s1.len() ==> start_of(s2, i) == #[trigger] start_of(s1, i)
    &&& forall|off: int| is_obj_start(s2, off) <==> #[trigger] is_obj_start(s1, off)
    &&& forall|off: int|
        #[trigger] is_obj_start(s1, off) ==> index_at(s2, off) == index_at(s1, off)
}

/// An object lies inside the accounted region, so its size is bounded.
pub proof fn lemma_obj_size_bound(s: Seq<HeapObject>, i: int)
    requires
        0 <= i < s.len(),
    ensures
        0 <= start_of(s, i),
        start_of(s, i) + s[i].size() <= total_size(s),
        s[i].size() <= total_size(s),
{
    lemma_start_of_le(s, 0, i);
    lemma_start_of_le(s, i + 1, s.len() as int);
}

pub proof fn lemma_same_layout_starts(s1: Seq<HeapObject>, s2: Seq<HeapObject>)
    requires
        same_layout(s1, s2),
    ensures
        forall|i: int| 0 <= i <= s1.len() ==> start_of(s2, i) == #[trigger] start_of(s1, i),
        total_size(s2) == total_size(s1),
        forall|off: int| is_obj_start(s2, off) <==> #[trigger] is_obj_start(s1, off),
        forall|off: int|
            #[trigger] is_obj_start(s1, off) ==> index_at(s2, off) == index_at(s1, off),
{
    assert forall|i: int| 0 <= i <= s1.len() implies start_of(s2, i) == #[trigger] start_of(
        s1,
        i,
    ) by {
        lemma_start_of_agree(s2, s1, i);
    }
    assert forall|off: int| #[trigger] is_obj_start(s1, off) implies is_obj_start(s2, off)
        && index_at(s2, off) == index_at(s1, off) by {
        let t = index_at(s1, off);
        assert(0 <= t < s1.len() && start_of(s1, t) == off);
        assert(start_of(s2, t) == off);
        assert(is_obj_start(s2, off));
        lemma_start_inj(s2, index_at(s2, off), t);
    }
    assert forall|off: int| is_obj_start(s2, off) implies #[trigger] is_obj_start(s1, off) by {
        let t = index_at(s2, off);
        assert(0 <= t < s2.len() && start_of(s2, t) == off);
        assert(start_of(s1, t) == off);
    }
}

/// Replacing objects without touching sizes or ref fields keeps every
/// structural property of the heap.
pub proof fn lemma_same_refs_valid(s1: Seq<HeapObject>, s2: Seq<HeapObject>)
    requires
        same_layout(s1, s2),
        all_refs_valid(s1),
        forall|i: int| 0 <= i < s1.len() ==> (#[trigger] s2[i]).refs@ == s1[i].refs@,
    ensures
        all_refs_valid(s2),
{
    lemma_same_layout_starts(s1, s2);
    assert forall|i: int, k: int|
        0 <= i < s2.len() && 0 <= k < s2[i].refs@.len() implies ref_valid(
        s2,
        #[trigger] s2[i].refs@[k],
    ) by {
        assert(ref_valid(s1, s1[i].refs@[k]));
        assert(s2[i].refs@[k] == s1[i].refs@[k]);
    }
}

impl HeapObj {
    /// The handle addresses the header of an object of the heap.
    pub open spec fn valid(&self, mem: &HeapMemory) -> bool {
        is_obj_start(mem@, self.off as int)
    }

    /// A read handle to the same object (many read handles may coexist;
    /// this one's use must end before the next mutation of the heap).
    pub fn to_heap_ref(&self) -> (r: HeapRef)
        ensures
            r.off == self.off,
    {
        HeapRef { off: self.off }
    }

    /// Read int field `idx`. The index must be in range: the interpreter
    /// treats a violation as a fatal error.
    pub fn get_int(&self, mem: &HeapMemory, idx: usize) -> (r: HeapInt)
        requires
            mem.wf(),
            self.valid(mem),
            idx < mem.header_at(self.off as int).nr_of_ints,
        ensures
            r == mem.int_at(self.off as int, idx as int),
    {
        let i = mem.locate(self.off);
        proof {
            assert(mem@[i as int].obj_wf());
        }
        mem.objects[i].ints[idx]
    }

    /// Write int field `idx`. Only this object changes, and of it only the
    /// one int field; the layout of the heap is untouched.
    pub fn set_int(&self, mem: &mut HeapMemory, idx: usize, val: HeapInt)
        requires
            old(mem).wf(),
            self.valid(old(mem)),
            idx < old(mem).header_at(self.off as int).nr_of_ints,
        ensures
            final(mem).wf(),
            final(mem).free_offset == old(mem).free_offset,
            layout_preserved(old(mem)@, final(mem)@),
            final(mem)@ == old(mem)@.update(
                index_at(old(mem)@, self.off as int),
                HeapObject {
                    header: old(mem).header_at(self.off as int),
                    ints: final(mem)@[index_at(old(mem)@, self.off as int)].ints,
                    refs: old(mem)@[index_at(old(mem)@, self.off as int)].refs,
                },
            ),
            final(mem)@[index_at(old(mem)@, self.off as int)].ints@ == old(mem)@[index_at(
                old(mem)@,
                self.off as int,
            )].ints@.update(idx as int, val),
            final(mem).int_at(self.off as int, idx as int) == val,
    {
        let i = mem.locate(self.off);
        proof {
            assert(mem@[i as int].obj_wf());
        }
        mem.objects[i].ints[idx] = val;
        proof {
            let s1 = old(mem)@;
            let s2 = mem@;
            assert(s2[i as int].size() == s1[i as int].size());
            assert(same_layout(s1, s2));
            lemma_same_layout_starts(s1, s2);
            lemma_same_refs_valid(s1, s2);
            assert(s2 =~= s1.update(
                i as int,
                HeapObject {
                    header: s1[i as int].header,
                    ints: s2[i as int].ints,
                    refs: s1[i as int].refs,
                },
            ));
        }
    }

    /// Read ref field `idx`: `None` for the null sentinel, otherwise a read
    /// handle to the referenced object.
    pub fn get_ref(&self, mem: &HeapMemory, idx: usize) -> (r: Option<HeapRef>)
        requires
            mem.wf(),
            self.valid(mem),
            idx < mem.header_at(self.off as int).nr_of_refs,
        ensures
            r is Some <==> mem.ref_at(self.off as int, idx as int) is Some,
            r matches Some(h) ==> {
                &&& mem.ref_at(self.off as int, idx as int) == Some(h.off)
                &&& h.valid(mem)
            },
    {
        let i = mem.locate(self.off);
        proof {
            assert(mem@[i as int].obj_wf());
            assert(ref_valid(mem@, mem@[i as int].refs@[idx as int]));
        }
        match mem.objects[i].refs[idx] {
            None => None,
            Some(off) => Some(HeapRef { off }),
        }
    }

    /// Write ref field `idx`: `None` writes the null sentinel, `Some` the
    /// offset of the handle's object. Only this one ref field changes.
    pub fn set_ref(&self, mem: &mut HeapMemory, idx: usize, val: Option<HeapRef>)
        requires
            old(mem).wf(),
            self.valid(old(mem)),
            idx < old(mem).header_at(self.off as int).nr_of_refs,
            val matches Some(h) ==> h.valid(old(mem)),
        ensures
            final(mem).wf(),
            final(mem).free_offset == old(mem).free_offset,
            layout_preserved(old(mem)@, final(mem)@),
            final(mem)@ == old(mem)@.update(
                index_at(old(mem)@, self.off as int),
                HeapObject {
                    header: old(mem).header_at(self.off as int),
                    ints: old(mem)@[index_at(old(mem)@, self.off as int)].ints,
                    refs: final(mem)@[index_at(old(mem)@, self.off as int)].refs,
                },
            ),
            final(mem)@[index_at(old(mem)@, self.off as int)].refs@ == old(mem)@[index_at(
                old(mem)@,
                self.off as int,
            )].refs@.update(
                idx as int,
                match val {
                    None => None,
                    Some(h) => Some(h.off),
                },
            ),
            final(mem).ref_at(self.off as int, idx as int) == (match val {
                None => None::<usize>,
                Some(h) => Some(h.off),
            }),
    {
        let i = mem.locate(self.off);
        proof {
            assert(mem@[i as int].obj_wf());
        }
        let raw: Option<usize> = match val {
            None => None,
            Some(h) => Some(h.off),
        };
        mem.objects[i].refs[idx] = raw;
        proof {
            let s1 = old(mem)@;
            let s2 = mem@;
            assert(s2[i as int].size() == s1[i as int].size());
            assert(same_layout(s1, s2));
            lemma_same_layout_starts(s1, s2);
            assert forall|a: int, k: int|
                0 <= a < s2.len() && 0 <= k < s2[a].refs@.len() implies ref_valid(
                s2,
                #[trigger] s2[a].refs@[k],
            ) by {
                if a == i as int && k == idx as int {
                    match val {
                        Some(h) => {
                            assert(is_obj_start(s1, h.off as int));
                        },
                        None => {},
                    }
                } else {
                    assert(ref_valid(s1, s1[a].refs@[k]));
                    assert(s2[a].refs@[k] == s1[a].refs@[k]);
                }
            }
            assert(s2 =~= s1.update(
                i as int,
                HeapObject {
                    header: s1[i as int].header,
                    ints: s1[i as int].ints,
                    refs: s2[i as int].refs,
                },
            ));
        }
    }
}

/// The safe-handle table: a fixed-size array of optional object offsets.
/// Its occupied slots are the collector's root set, and the only structure
/// that carries references across a collection.
pub struct HeapRefs {
    pub safe_refs: Vec<Option<usize>>,
}

impl HeapRefs {
    /// The table has its fixed size.
    pub open spec fn table_wf(&self) -> bool {
        self.safe_refs@.len() == MAX_SAFE_REFS
    }

    /// Every occupied slot addresses the header of an object.
    pub open spec fn roots_valid(&self, s: Seq<HeapObject>) -> bool {
        forall|i: int|
            0 <= i < self.safe_refs@.len() ==> ref_valid(s, #[trigger] self.safe_refs@[i])
    }

    /// Dereference a safe handle to a read handle.
    pub fn get(&self, s: &SafeHeapRef) -> (r: HeapRef)
        requires
            (s.handle_idx as int) < self.safe_refs@.len(),
            self.safe_refs@[s.handle_idx as int] is Some,
        ensures
            self.safe_refs@[s.handle_idx as int] == Some(r.off),
    {
        let off = self.safe_refs[s.handle_idx as usize].unwrap();
        HeapRef { off }
    }

    /// Re-derive an optional read handle for a new use of the heap (read
    /// handles are freely copyable).
    pub fn get_option(&self, referent: Option<HeapRef>) -> (r: Option<HeapRef>)
        ensures
            r == referent,
    {
        referent
    }

    /// Promote a handle to a safe handle: store its offset in the first
    /// unoccupied slot of the table. Exhaustion of the table is a fatal
    /// error, so a free slot is demanded of the caller.
    #[verifier::loop_isolation(false)]
    pub fn get_safe(&mut self, r: &HeapRef) -> (s: SafeHeapRef)
        requires
            old(self).table_wf(),
            exists|i: int| 0 <= i < MAX_SAFE_REFS && old(self).safe_refs@[i] is None,
        ensures
            final(self).table_wf(),
            (s.handle_idx as int) < MAX_SAFE_REFS,
            old(self).safe_refs@[s.handle_idx as int] is None,
            forall|j: int| 0 <= j < s.handle_idx as int ==> old(self).safe_refs@[j] is Some,
            final(self).safe_refs@ == old(self).safe_refs@.update(
                s.handle_idx as int,
                Some(r.off),
            ),
    {
        let mut i: usize = 0;
        while i < MAX_SAFE_REFS
            invariant
                i <= MAX_SAFE_REFS,
                self == old(self),
                forall|j: int| 0 <= j < i ==> old(self).safe_refs@[j] is Some,
            decreases MAX_SAFE_REFS - i,
        {
            if self.safe_refs[i].is_none() {
                self.safe_refs[i] = Some(r.off);
                return SafeHeapRef { handle_idx: i as u8 };
            }
            i = i + 1;
        }
        proof {
            assert(false);
        }
        SafeHeapRef { handle_idx: 0 }
    }

    /// Give a safe handle back: clear its slot so it can be reused. (The
    /// slot is the handle's only backing; dropping the handle without
    /// releasing it merely keeps its referent alive until then.)
    pub fn release_safe(&mut self, s: SafeHeapRef)
        requires
            old(self).table_wf(),
            (s.handle_idx as int) < MAX_SAFE_REFS,
        ensures
            final(self).table_wf(),
            final(self).safe_refs@ == old(self).safe_refs@.update(s.handle_idx as int, None),
    {
        self.safe_refs[s.handle_idx as usize] = None;
    }
}

impl HeapMemory {
    /// Upgrade a read handle to a mutating handle. The borrow discipline --
    /// at most one mutating handle in use, no read handle used across a
    /// mutation -- is enforced by the `&mut` borrows the mutators take.
    pub fn get(&self, reference: &HeapRef) -> (r: HeapObj)
        ensures
            r.off == reference.off,
    {
        HeapObj { off: reference.off }
    }

    /// Upgrade an optional read handle to an optional mutating handle.
    pub fn get_option(&self, referent: Option<HeapRef>) -> (r: Option<HeapObj>)
        ensures
            r is Some <==> referent is Some,
            r matches Some(h) ==> referent matches Some(q) && h.off == q.off,
    {
        match referent {
            None => None,
            Some(q) => Some(HeapObj { off: q.off }),
        }
    }
}

/// The managed heap: the object arena and the safe-handle table.
pub struct Heap {
    pub objs: HeapMemory,
    pub refs: HeapRefs,
}

impl Heap {
    /// Structural invariant of the whole heap: the arena is well formed and
    /// every occupied safe-handle slot addresses the header of an object.
    pub open spec fn wf(&self) -> bool {
        &&& self.objs.wf()
        &&& self.refs.table_wf()
        &&& self.refs.roots_valid(self.objs@)
    }
}

/// A fresh heap: empty arena, bump offset zero, every safe-handle slot free.
pub fn init_heap() -> (h: Heap)
    ensures
        h.wf(),
        h.objs@.len() == 0,
        h.objs.free_offset == 0,
        forall|i: int| 0 <= i < MAX_SAFE_REFS ==> h.refs.safe_refs@[i] is None,
{
    let mut safe_refs: Vec<Option<usize>> = Vec::new();
    while safe_refs.len() < MAX_SAFE_REFS
        invariant
            safe_refs@.len() <= MAX_SAFE_REFS,
            forall|i: int| 0 <= i < safe_refs@.len() ==> safe_refs@[i] is None,
        decreases MAX_SAFE_REFS - safe_refs.len(),
    {
        safe_refs.push(None);
    }
    Heap { objs: HeapMemory { free_offset: 0, objects: Vec::new() }, refs: HeapRefs { safe_refs } }
}


/// A cursor over the packed objects in heap order, yielding a mutating
/// handle to each object in turn. (It is a plain cursor rather than a std
/// iterator so that each step can state exactly where it stands.)
pub struct HeapIteratorMut {
    pub next_offset: usize,
}

impl HeapIteratorMut {
    /// A cursor at the base of the heap.
    pub fn new() -> (it: HeapIteratorMut)
        ensures
            it.next_offset == 0,
    {
        HeapIteratorMut { next_offset: 0 }
    }

    /// Yield a handle to the object at the cursor and advance past it;
    /// `None` once the cursor reaches the bump offset. The cursor is either
    /// at an object's header or at the end of the packed region, and stays
    /// so.
    pub fn next(&mut self, mem: &HeapMemory) -> (r: Option<HeapObj>)
        requires
            mem.wf(),
            old(self).next_offset == mem.free_offset || is_obj_start(
                mem@,
                old(self).next_offset as int,
            ),
        ensures
            old(self).next_offset == mem.free_offset ==> r is None && *final(self) == *old(self),
            old(self).next_offset != mem.free_offset ==> {
                &&& r matches Some(h) && h.off == old(self).next_offset && h.valid(mem)
                &&& final(self).next_offset == old(self).next_offset + mem@[index_at(
                    mem@,
                    old(self).next_offset as int,
                )].size()
                &&& final(self).next_offset == mem.free_offset || is_obj_start(
                    mem@,
                    final(self).next_offset as int,
                )
            },
    {
        if self.next_offset == mem.free_offset {
            None
        } else {
            let i = mem.locate(self.next_offset);
            proof {
                assert(mem@[i as int].obj_wf());
                lemma_obj_size_bound(mem@, i as int);
            }
            let sz = mem.objects[i].header.object_size();
            let off = self.next_offset;
            self.next_offset = off + sz;
            proof {
                lemma_start_of_le(mem@, i + 1, mem@.len() as int);
                if i + 1 < mem@.len() {
                    assert(start_of(mem@, i + 1) == off + sz);
                    assert(is_obj_start(mem@, (off + sz) as int));
                } else {
                    assert(start_of(mem@, i + 1) == total_size(mem@));
                }
            }
            Some(HeapObj { off })
        }
    }
}

/// Law: in every well-formed heap state the sizes of the objects account
/// exactly for the bump offset -- the packed region has no gaps.
pub proof fn lemma_sizes_account_for_free_offset(mem: HeapMemory)
    requires
        mem.wf(),
    ensures
        mem.free_offset == total_size(mem@),
{
}

/// Law: a fresh allocation reads back as empty. In the heap the allocator
/// leaves, every int field of the new object reads zero and every ref
/// field reads null.
pub proof fn lemma_fresh_allocation_zeroed(m: HeapMemory, off: int)
    requires
        m.wf(),
        is_obj_start(m@, off),
        m@[index_at(m@, off)].ints@ == Seq::new(
            m@[index_at(m@, off)].ints@.len(),
            |i: int| 0usize,
        ),
        m@[index_at(m@, off)].refs@ == Seq::new(
            m@[index_at(m@, off)].refs@.len(),
            |i: int| Option::<usize>::None,
        ),
    ensures
        forall|i: int| 0 <= i < m.header_at(off).nr_of_ints ==> #[trigger] m.int_at(off, i) == 0,
        forall|k: int| 0 <= k < m.header_at(off).nr_of_refs ==> #[trigger] m.ref_at(off, k) is None,
{
    let t = index_at(m@, off);
    assert(0 <= t < m@.len() && start_of(m@, t) == off);
    assert(m@[t].obj_wf());
}

/// Law: writing a field and reading it back yields the value written, and
/// every other field of the object reads as before. `m2` is the heap that
/// `set_int` leaves behind after writing `val` into int field `idx` of the
/// object at `off` of `m1`.
pub proof fn lemma_set_get_int_round_trip(
    m1: HeapMemory,
    m2: HeapMemory,
    off: int,
    idx: int,
    val: HeapInt,
)
    requires
        m1.wf(),
        is_obj_start(m1@, off),
        0 <= idx < m1.header_at(off).nr_of_ints,
        layout_preserved(m1@, m2@),
        m2@ == m1@.update(
            index_at(m1@, off),
            HeapObject {
                header: m1.header_at(off),
                ints: m2@[index_at(m1@, off)].ints,
                refs: m1@[index_at(m1@, off)].refs,
            },
        ),
        m2@[index_at(m1@, off)].ints@ == m1@[index_at(m1@, off)].ints@.update(idx, val),
    ensures
        m2.int_at(off, idx) == val,
        forall|j: int|
            0 <= j < m1.header_at(off).nr_of_ints && j != idx ==> #[trigger] m2.int_at(off, j)
                == m1.int_at(off, j),
        forall|k: int|
            0 <= k < m1.header_at(off).nr_of_refs ==> #[trigger] m2.ref_at(off, k) == m1.ref_at(
                off,
                k,
            ),
{
    let t = index_at(m1@, off);
    assert(0 <= t < m1@.len() && start_of(m1@, t) == off);
    assert(m1@[t].obj_wf());
    assert(index_at(m2@, off) == t);
}

impl ObjectHeader {
    /// Size in words of an object with this header: the header itself plus
    /// one word per int field and one per ref field.
    pub fn object_size(&self) -> (r: usize)
        requires
            HEADER_SIZE + self.nr_of_ints + self.nr_of_refs <= usize::MAX,
        ensures
            r == HEADER_SIZE + self.nr_of_ints + self.nr_of_refs,
    {
        HEADER_SIZE + self.nr_of_ints + self.nr_of_refs
    }
}

} // verus!
