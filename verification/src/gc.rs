//! The precise mark-compact collector.
//!
//! The collector runs only when invoked explicitly, and only when no
//! mutating or read handle is in use (the safe-handle table alone carries
//! references across the collection). Five strictly sequential phases:
//! color every object white and every safe-handle referent grey; mark
//! transitively to a fixed point (grey objects turn black, their white
//! children grey) with repeated linear passes instead of recursion, since
//! the target's call stack is tiny; record in each surviving object how far
//! it will slide toward the base (the total size of the white objects
//! before it); rewrite every occupied safe-handle slot and every ref field
//! of every surviving object to the referent's post-slide offset; and
//! finally slide the survivors down, reclaiming the white objects' words.

use vstd::prelude::*;

use crate::heap::{
    all_refs_valid, index_at, is_obj_start, layout_preserved, lemma_obj_size_bound,
    lemma_same_layout_starts, lemma_same_refs_valid, lemma_start_inj, lemma_start_of_agree,
    lemma_start_of_le, lemma_start_of_push, ref_valid, same_layout, start_of, total_size, GCColor,
    Heap, HeapMemory, HeapObject, ObjectHeader, MAX_SAFE_REFS, MEM_SIZE,
};

verus! {

pub open spec fn is_white(o: HeapObject) -> bool {
    o.header.gc_color is White
}

pub open spec fn is_grey(o: HeapObject) -> bool {
    o.header.gc_color is Grey
}

pub open spec fn is_black(o: HeapObject) -> bool {
    o.header.gc_color is Black
}

/// The two objects agree on everything but the collector's mark fields
/// (color and shift): same field counts, same int fields, same ref fields.
pub open spec fn same_but_marks(o1: HeapObject, o2: HeapObject) -> bool {
    &&& o2.header.nr_of_ints == o1.header.nr_of_ints
    &&& o2.header.nr_of_refs == o1.header.nr_of_refs
    &&& o2.ints@ == o1.ints@
    &&& o2.refs@ == o1.refs@
}

/// Object-wise `same_but_marks` over two heaps of equal length.
pub open spec fn all_same_but_marks(s1: Seq<HeapObject>, s2: Seq<HeapObject>) -> bool {
    &&& s1.len() == s2.len()
    &&& forall|i: int| 0 <= i < s1.len() ==> same_but_marks(s1[i], #[trigger] s2[i])
}

/// Only the shift may differ: marks aside, even the color agrees.
pub open spec fn same_but_shift(o1: HeapObject, o2: HeapObject) -> bool {
    &&& same_but_marks(o1, o2)
    &&& o2.header.gc_color == o1.header.gc_color
}

/// Touching only mark fields keeps the layout and the validity of refs.
pub proof fn lemma_marks_layout(s1: Seq<HeapObject>, s2: Seq<HeapObject>)
    requires
        all_same_but_marks(s1, s2),
    ensures
        same_layout(s1, s2),
        layout_preserved(s1, s2),
        all_refs_valid(s1) ==> all_refs_valid(s2),
{
    assert(same_layout(s1, s2));
    lemma_same_layout_starts(s1, s2);
    if all_refs_valid(s1) {
        lemma_same_refs_valid(s1, s2);
    }
}

/// Object `i` references object `j`: some non-null ref field of `i` holds
/// the start offset of `j`.
pub open spec fn edge(s: Seq<HeapObject>, i: int, j: int) -> bool {
    &&& 0 <= i < s.len()
    &&& 0 <= j < s.len()
    &&& exists|k: int|
        0 <= k < s[i].refs@.len() && (#[trigger] s[i].refs@[k]) == Some(start_of(s, j) as usize)
}

/// Consecutive elements of `p` are edges of the object graph.
pub open spec fn is_path(s: Seq<HeapObject>, p: Seq<int>) -> bool {
    forall|k: int| 0 <= k < p.len() - 1 ==> edge(s, #[trigger] p[k], p[k + 1])
}

/// Some occupied safe-handle slot addresses object `i`: the root set.
pub open spec fn rooted(s: Seq<HeapObject>, safe: Seq<Option<usize>>, i: int) -> bool {
    &&& 0 <= i < s.len()
    &&& exists|t: int|
        0 <= t < safe.len() && (#[trigger] safe[t]) == Some(start_of(s, i) as usize)
}

/// Object `j` can be reached from the safe-handle table along ref fields.
pub open spec fn reachable(s: Seq<HeapObject>, safe: Seq<Option<usize>>, j: int) -> bool {
    exists|p: Seq<int>|
        {
            &&& p.len() >= 1
            &&& rooted(s, safe, p[0])
            &&& p.last() == j
            &&& #[trigger] is_path(s, p)
        }
}

/// Object `j` can be reached from some grey object along ref fields.
pub open spec fn reachable_from_grey(s: Seq<HeapObject>, j: int) -> bool {
    exists|p: Seq<int>|
        {
            &&& p.len() >= 1
            &&& 0 <= p[0] < s.len()
            &&& is_grey(s[p[0]])
            &&& p.last() == j
            &&& #[trigger] is_path(s, p)
        }
}

/// The object graph only depends on what `same_but_marks` keeps.
pub proof fn lemma_graph_congruent(s1: Seq<HeapObject>, s2: Seq<HeapObject>)
    requires
        all_same_but_marks(s1, s2),
    ensures
        forall|i: int, j: int| #[trigger] edge(s2, i, j) <==> edge(s1, i, j),
        forall|p: Seq<int>| #[trigger] is_path(s2, p) <==> is_path(s1, p),
{
    lemma_marks_layout(s1, s2);
    assert forall|i: int, j: int| #[trigger] edge(s2, i, j) <==> edge(s1, i, j) by {
        if edge(s1, i, j) {
            let k = choose|k: int|
                0 <= k < s1[i].refs@.len() && (#[trigger] s1[i].refs@[k]) == Some(
                    start_of(s1, j) as usize,
                );
            assert(s2[i].refs@[k] == Some(start_of(s2, j) as usize));
            assert(edge(s2, i, j));
        }
        if edge(s2, i, j) {
            let k = choose|k: int|
                0 <= k < s2[i].refs@.len() && (#[trigger] s2[i].refs@[k]) == Some(
                    start_of(s2, j) as usize,
                );
            assert(s1[i].refs@[k] == Some(start_of(s1, j) as usize));
            assert(edge(s1, i, j));
        }
    }
    assert forall|p: Seq<int>| #[trigger] is_path(s2, p) <==> is_path(s1, p) by {
        if is_path(s1, p) {
            assert forall|k: int| 0 <= k < p.len() - 1 implies edge(s2, #[trigger] p[k], p[k + 1]) by {
                assert(edge(s1, p[k], p[k + 1]));
            }
        }
        if is_path(s2, p) {
            assert forall|k: int| 0 <= k < p.len() - 1 implies edge(s1, #[trigger] p[k], p[k + 1]) by {
                assert(edge(s2, p[k], p[k + 1]));
            }
        }
    }
}

/// Total size of the white objects before object `i`: how far object `i`
/// will slide toward the base of the heap.
pub open spec fn white_before(s: Seq<HeapObject>, i: int) -> int
    decreases i,
{
    if i <= 0 {
        0
    } else {
        white_before(s, i - 1) + if is_white(s[i - 1]) {
            s[i - 1].size()
        } else {
            0int
        }
    }
}

/// Number of surviving (non-white) objects before object `i`: the index at
/// which object `i` will stand after compaction.
pub open spec fn new_index(s: Seq<HeapObject>, i: int) -> int
    decreases i,
{
    if i <= 0 {
        0
    } else {
        new_index(s, i - 1) + if is_white(s[i - 1]) {
            0int
        } else {
            1int
        }
    }
}

/// Number of objects that are not yet black among the first `i`: the
/// measure the transitive-marking passes drive to a fixed point.
pub open spec fn count_non_black(s: Seq<HeapObject>, i: int) -> int
    decreases i,
{
    if i <= 0 {
        0
    } else {
        count_non_black(s, i - 1) + if is_black(s[i - 1]) {
            0int
        } else {
            1int
        }
    }
}

pub proof fn lemma_white_before_agree(s1: Seq<HeapObject>, s2: Seq<HeapObject>, i: int)
    requires
        0 <= i,
        forall|k: int|
            0 <= k < i ==> is_white(s1[k]) == is_white(#[trigger] s2[k]) && s1[k].size()
                == s2[k].size(),
    ensures
        white_before(s1, i) == white_before(s2, i),
        new_index(s1, i) == new_index(s2, i),
    decreases i,
{
    if 0 < i {
        lemma_white_before_agree(s1, s2, i - 1);
    }
}

pub proof fn lemma_count_non_black_agree(s1: Seq<HeapObject>, s2: Seq<HeapObject>, i: int)
    requires
        0 <= i,
        forall|k: int| 0 <= k < i ==> is_black(s1[k]) == is_black(#[trigger] s2[k]),
    ensures
        count_non_black(s1, i) == count_non_black(s2, i),
    decreases i,
{
    if 0 < i {
        lemma_count_non_black_agree(s1, s2, i - 1);
    }
}

/// Blackening never raises the measure, and blackening a non-black object
/// strictly lowers it.
pub proof fn lemma_count_non_black_le(s1: Seq<HeapObject>, s2: Seq<HeapObject>, i: int)
    requires
        0 <= i,
        forall|k: int| 0 <= k < i ==> is_black(s1[k]) ==> is_black(#[trigger] s2[k]),
    ensures
        count_non_black(s2, i) <= count_non_black(s1, i),
    decreases i,
{
    if 0 < i {
        lemma_count_non_black_le(s1, s2, i - 1);
    }
}

pub proof fn lemma_count_non_black_lt(s1: Seq<HeapObject>, s2: Seq<HeapObject>, i: int, j: int)
    requires
        0 <= j < i,
        forall|k: int| 0 <= k < i ==> is_black(s1[k]) ==> is_black(#[trigger] s2[k]),
        is_black(s2[j]),
        !is_black(s1[j]),
    ensures
        count_non_black(s2, i) < count_non_black(s1, i),
    decreases i,
{
    if j == i - 1 {
        lemma_count_non_black_le(s1, s2, i - 1);
    } else {
        lemma_count_non_black_lt(s1, s2, i - 1, j);
    }
}

pub proof fn lemma_count_non_black_nonneg(s: Seq<HeapObject>, i: int)
    requires
        0 <= i,
    ensures
        count_non_black(s, i) >= 0,
    decreases i,
{
    if 0 < i {
        lemma_count_non_black_nonneg(s, i - 1);
    }
}

/// A slide distance never exceeds the offset of the object it moves.
pub proof fn lemma_white_before_le_start(s: Seq<HeapObject>, i: int)
    requires
        0 <= i,
    ensures
        0 <= white_before(s, i) <= start_of(s, i),
        0 <= new_index(s, i) <= i,
    decreases i,
{
    if 0 < i {
        lemma_white_before_le_start(s, i - 1);
    }
}

/// Among the first `t` safe-handle slots, one addresses object `k`.
pub open spec fn root_seen(s: Seq<HeapObject>, safe: Seq<Option<usize>>, k: int, t: int) -> bool {
    exists|u: int| 0 <= u < t && (#[trigger] safe[u]) == Some(start_of(s, k) as usize)
}

/// Total size of the objects before object `i` that the table does not
/// reach: how far object `i` slides in a collection started in this state.
pub open spec fn dead_before(s: Seq<HeapObject>, safe: Seq<Option<usize>>, i: int) -> int
    decreases i,
{
    if i <= 0 {
        0
    } else {
        dead_before(s, safe, i - 1) + if reachable(s, safe, i - 1) {
            0int
        } else {
            s[i - 1].size()
        }
    }
}

/// Index at which reachable object `i` stands after a collection.
pub open spec fn live_index(s: Seq<HeapObject>, safe: Seq<Option<usize>>, i: int) -> int
    decreases i,
{
    if i <= 0 {
        0
    } else {
        live_index(s, safe, i - 1) + if reachable(s, safe, i - 1) {
            1int
        } else {
            0int
        }
    }
}

/// The value a collection leaves in a reference field or safe-handle slot:
/// null stays null, and a referent's offset drops by its slide distance.
pub open spec fn gc_ref(s: Seq<HeapObject>, safe: Seq<Option<usize>>, r: Option<usize>) -> Option<
    usize,
> {
    match r {
        None => None,
        Some(t) => Some((t - dead_before(s, safe, index_at(s, t as int))) as usize),
    }
}

/// Marking computes reachability: where the colors record exactly it, the
/// collection's slide distances and surviving indices do too.
pub proof fn lemma_dead_white(
    s0: Seq<HeapObject>,
    safe0: Seq<Option<usize>>,
    sm: Seq<HeapObject>,
    i: int,
)
    requires
        0 <= i,
        forall|j: int|
            0 <= j < i ==> ((is_white(#[trigger] sm[j]) <==> !reachable(s0, safe0, j)) && sm[j].size()
                == s0[j].size()),
    ensures
        white_before(sm, i) == dead_before(s0, safe0, i),
        new_index(sm, i) == live_index(s0, safe0, i),
    decreases i,
{
    if 0 < i {
        lemma_dead_white(s0, safe0, sm, i - 1);
    }
}

/// Where each survivor stands after compaction: at its survivor index, with
/// its old contents, slid down by its slide distance.
pub proof fn lemma_survivors_index(s: Seq<HeapObject>, j: int)
    requires
        0 <= j < s.len(),
        !is_white(s[j]),
    ensures
        0 <= new_index(s, j) < survivors(s).len(),
        survivors(s)[new_index(s, j)] == s[j],
        start_of(survivors(s), new_index(s, j)) == start_of(s, j) - white_before(s, j),
    decreases s.len(),
{
    lemma_survivors_total(s);
    lemma_white_before_le_start(s, j);
    let d = s.drop_last();
    if j == s.len() - 1 {
        lemma_survivors_total(d);
        lemma_white_before_agree(s, d, j);
        lemma_start_of_agree(s, d, j);
        assert(survivors(s) == survivors(d).push(s.last()));
        assert(survivors(s)[new_index(s, j)] == s[j]);
        lemma_start_of_push(survivors(d), s.last(), survivors(d).len() as int);
    } else {
        lemma_survivors_index(d, j);
        lemma_white_before_agree(s, d, j);
        lemma_start_of_agree(s, d, j);
        lemma_survivors_total(d);
        if !is_white(s.last()) {
            assert(survivors(s) == survivors(d).push(s.last()));
            assert(survivors(s)[new_index(d, j)] == survivors(d)[new_index(d, j)]);
            lemma_start_of_push(survivors(d), s.last(), new_index(d, j));
        } else {
            assert(survivors(s) == survivors(d));
        }
    }
}

/// The heap after compaction: the white objects removed, the survivors in
/// their old order.
pub open spec fn survivors(s: Seq<HeapObject>) -> Seq<HeapObject>
    decreases s.len(),
{
    if s.len() == 0 {
        Seq::empty()
    } else if is_white(s.last()) {
        survivors(s.drop_last())
    } else {
        survivors(s.drop_last()).push(s.last())
    }
}

pub proof fn lemma_total_push(s: Seq<HeapObject>, o: HeapObject)
    ensures
        total_size(s.push(o)) == total_size(s) + o.size(),
{
    lemma_start_of_push(s, o, s.len() as int);
    assert(s.push(o)[s.len() as int] == o);
}

/// Compaction reclaims exactly the white words: the survivors pack the
/// prefix of the heap that the reduced bump offset accounts for.
pub proof fn lemma_survivors_total(s: Seq<HeapObject>)
    ensures
        survivors(s).len() == new_index(s, s.len() as int),
        total_size(survivors(s)) == total_size(s) - white_before(s, s.len() as int),
    decreases s.len(),
{
    if s.len() == 0 {
    } else {
        let d = s.drop_last();
        lemma_survivors_total(d);
        lemma_white_before_agree(s, d, s.len() - 1);
        lemma_start_of_agree(s, d, s.len() - 1);
        assert(total_size(s) == start_of(s, s.len() - 1) + s[s.len() - 1].size());
        if !is_white(s.last()) {
            lemma_total_push(survivors(d), s.last());
        }
    }
}

/// Headers and int fields agree; ref fields may differ in value but not in
/// number (the shape rewriting a ref field keeps).
pub open spec fn same_but_refs(o1: HeapObject, o2: HeapObject) -> bool {
    &&& o2.header == o1.header
    &&& o2.ints@ == o1.ints@
    &&& o2.refs@.len() == o1.refs@.len()
}

/// No black object references a white one.
pub open spec fn black_children_marked(s: Seq<HeapObject>) -> bool {
    forall|i: int, k: int|
        0 <= i < s.len() && is_black(s[i]) && 0 <= k < s[i].refs@.len() && (
        #[trigger] s[i].refs@[k]) is Some ==> !is_white(s[index_at(s, s[i].refs@[k]->0 as int)])
}

/// Every occupied safe-handle slot addresses a black object.
pub open spec fn roots_black(s: Seq<HeapObject>, safe: Seq<Option<usize>>) -> bool {
    forall|t: int|
        0 <= t < safe.len() && (#[trigger] safe[t]) is Some ==> is_black(
            s[index_at(s, safe[t]->0 as int)],
        )
}

/// The post-slide value of one reference: the referent's offset minus its
/// slide distance.
pub open spec fn rewritten_ref(s: Seq<HeapObject>, r: Option<usize>) -> Option<usize> {
    match r {
        None => None,
        Some(t) => Some((t - white_before(s, index_at(s, t as int))) as usize),
    }
}


/// A one-object path: a grey object reaches itself.
pub proof fn lemma_reach_self(s: Seq<HeapObject>, i: int)
    requires
        0 <= i < s.len(),
        is_grey(s[i]),
    ensures
        reachable_from_grey(s, i),
{
    let p = seq![i];
    assert(is_path(s, p));
    assert(p.len() >= 1 && 0 <= p[0] < s.len() && is_grey(s[p[0]]) && p.last() == i);
}

/// A path extends along an edge.
pub proof fn lemma_path_extend(s: Seq<HeapObject>, p: Seq<int>, j: int)
    requires
        is_path(s, p),
        p.len() >= 1,
        edge(s, p.last(), j),
    ensures
        is_path(s, p.push(j)),
        p.push(j).last() == j,
        p.push(j)[0] == p[0],
        p.push(j).len() >= 1,
{
    let q = p.push(j);
    assert forall|k: int| 0 <= k < q.len() - 1 implies edge(s, #[trigger] q[k], q[k + 1]) by {
        if k < p.len() - 1 {
            assert(edge(s, p[k], p[k + 1]));
        } else {
            assert(q[k] == p.last() && q[k + 1] == j);
        }
    }
}

/// At a fixed point of the marking passes -- no grey object, no black
/// object with a non-black child, every initially grey object black --
/// every object a grey one reached is black.
pub proof fn lemma_marking_complete(s0: Seq<HeapObject>, cur: Seq<HeapObject>, p: Seq<int>)
    requires
        all_same_but_marks(s0, cur),
        total_size(s0) <= MEM_SIZE,
        forall|i: int| 0 <= i < cur.len() ==> !is_grey(#[trigger] cur[i]),
        black_children_marked(cur),
        forall|i: int| 0 <= i < s0.len() && is_grey(s0[i]) ==> is_black(#[trigger] cur[i]),
        is_path(s0, p),
        p.len() >= 1,
        0 <= p[0] < s0.len(),
        is_grey(s0[p[0]]),
    ensures
        0 <= p.last() < cur.len(),
        is_black(cur[p.last()]),
    decreases p.len(),
{
    lemma_graph_congruent(s0, cur);
    if p.len() == 1 {
        assert(p.last() == p[0]);
    } else {
        let q = p.drop_last();
        assert forall|k: int| 0 <= k < q.len() - 1 implies edge(s0, #[trigger] q[k], q[k + 1]) by {
            assert(edge(s0, p[k], p[k + 1]));
        }
        assert(edge(s0, p[p.len() - 2], p[p.len() - 1]));
        assert(q.last() == p[p.len() - 2]);
        lemma_marking_complete(s0, cur, q);
        let a = q.last();
        let j = p.last();
        assert(edge(cur, a, j));
        let k = choose|k: int|
            0 <= k < cur[a].refs@.len() && (#[trigger] cur[a].refs@[k]) == Some(
                start_of(cur, j) as usize,
            );
        lemma_obj_size_bound(cur, j);
        lemma_marks_layout(s0, cur);
        assert(total_size(cur) == total_size(s0));
        assert(cur[a].refs@[k]->0 == start_of(cur, j) as usize);
        assert(start_of(cur, j) as usize as int == start_of(cur, j));
        lemma_start_inj(cur, index_at(cur, cur[a].refs@[k]->0 as int), j);
        assert(!is_white(cur[j]));
    }
}

impl Heap {
    /// First phase of a collection: color every object white, then color
    /// every safe-handle referent grey. Afterwards an object is grey
    /// exactly when an occupied table slot addresses it, white otherwise;
    /// nothing else changes.
    fn gc_mark_root_set(&mut self)
        requires
            old(self).wf(),
        ensures
            final(self).wf(),
            final(self).refs == old(self).refs,
            final(self).objs.free_offset == old(self).objs.free_offset,
            all_same_but_marks(old(self).objs@, final(self).objs@),
            forall|i: int|
                0 <= i < old(self).objs@.len() ==> (#[trigger] final(self).objs@[i]).header.gc_shift
                    == old(self).objs@[i].header.gc_shift,
            forall|i: int|
                0 <= i < old(self).objs@.len() ==> (#[trigger] final(self).objs@[i]).header.gc_color
                    == (if rooted(old(self).objs@, old(self).refs.safe_refs@, i) {
                    GCColor::Grey
                } else {
                    GCColor::White
                }),
    {
        let ghost s0 = old(self).objs@;
        let ghost safe0 = old(self).refs.safe_refs@;
        let n = self.objs.objects.len();
        let mut i: usize = 0;
        while i < n
            invariant
                old(self).wf(),
                s0 == old(self).objs@,
                safe0 == old(self).refs.safe_refs@,
                n == self.objs@.len(),
                i <= n,
                self.refs == old(self).refs,
                self.objs.free_offset == old(self).objs.free_offset,
                self.objs.wf(),
                all_same_but_marks(s0, self.objs@),
                forall|k: int|
                    0 <= k < n ==> (#[trigger] self.objs@[k]).header.gc_shift
                        == s0[k].header.gc_shift,
                forall|k: int| 0 <= k < i ==> (#[trigger] self.objs@[k]).header.gc_color is White,
                forall|k: int| i <= k < n ==> #[trigger] self.objs@[k] == s0[k],
            decreases n - i,
        {
            let h = self.objs.objects[i].header;
            self.objs.objects[i].header = ObjectHeader {
                gc_color: GCColor::White,
                gc_shift: h.gc_shift,
                nr_of_ints: h.nr_of_ints,
                nr_of_refs: h.nr_of_refs,
            };
            proof {
                lemma_marks_layout(s0, self.objs@);
                assert(self.objs.wf());
            }
            i = i + 1;
        }
        let mut t: usize = 0;
        while t < MAX_SAFE_REFS
            invariant
                old(self).wf(),
                s0 == old(self).objs@,
                safe0 == old(self).refs.safe_refs@,
                n == self.objs@.len(),
                t <= MAX_SAFE_REFS,
                self.refs == old(self).refs,
                self.refs.safe_refs@ == safe0,
                self.objs.free_offset == old(self).objs.free_offset,
                self.objs.wf(),
                all_same_but_marks(s0, self.objs@),
                safe0.len() == MAX_SAFE_REFS,
                forall|k: int|
                    0 <= k < n ==> (#[trigger] self.objs@[k]).header.gc_shift
                        == s0[k].header.gc_shift,
                forall|k: int|
                    0 <= k < n ==> (#[trigger] self.objs@[k]).header.gc_color == (
                    if root_seen(s0, safe0, k, t as int) {
                        GCColor::Grey
                    } else {
                        GCColor::White
                    }),
            decreases MAX_SAFE_REFS - t,
        {
            let slot = self.refs.safe_refs[t];
            match slot {
                None => {
                    proof {
                        assert forall|k: int| 0 <= k < n implies (root_seen(s0, safe0, k, t + 1)
                            <==> root_seen(s0, safe0, k, t as int)) by {
                            if root_seen(s0, safe0, k, t + 1) {
                                let u = choose|u: int|
                                    0 <= u < t + 1 && (#[trigger] safe0[u]) == Some(
                                        start_of(s0, k) as usize,
                                    );
                                assert(u != t);
                                assert(root_seen(s0, safe0, k, t as int));
                            }
                            if root_seen(s0, safe0, k, t as int) {
                                let u = choose|u: int|
                                    0 <= u < t && (#[trigger] safe0[u]) == Some(
                                        start_of(s0, k) as usize,
                                    );
                                assert(root_seen(s0, safe0, k, t + 1));
                            }
                        }
                    }
                },
                Some(off) => {
                    proof {
                        assert(ref_valid(s0, safe0[t as int]));
                        lemma_marks_layout(s0, self.objs@);
                        assert(is_obj_start(self.objs@, off as int));
                    }
                    let c = self.objs.locate(off);
                    let h = self.objs.objects[c].header;
                    self.objs.objects[c].header = ObjectHeader {
                        gc_color: GCColor::Grey,
                        gc_shift: h.gc_shift,
                        nr_of_ints: h.nr_of_ints,
                        nr_of_refs: h.nr_of_refs,
                    };
                    proof {
                        lemma_marks_layout(s0, self.objs@);
                        assert(self.objs.wf());
                        assert(start_of(s0, c as int) == off);
                        assert forall|k: int| 0 <= k < n implies (#[trigger] self.objs@[k]).header.gc_color
                            == (if root_seen(s0, safe0, k, t + 1) {
                            GCColor::Grey
                        } else {
                            GCColor::White
                        }) by {
                            if k == c as int {
                                assert(safe0[t as int] == Some(start_of(s0, k) as usize));
                                assert(root_seen(s0, safe0, k, t + 1));
                            } else {
                                if root_seen(s0, safe0, k, t + 1) {
                                    let u = choose|u: int|
                                        0 <= u < t + 1 && (#[trigger] safe0[u]) == Some(
                                            start_of(s0, k) as usize,
                                        );
                                    if u == t {
                                        lemma_obj_size_bound(s0, k);
                                        lemma_obj_size_bound(s0, c as int);
                                        assert(start_of(s0, k) == start_of(s0, c as int));
                                        lemma_start_inj(s0, k, c as int);
                                        assert(false);
                                    }
                                    assert(root_seen(s0, safe0, k, t as int));
                                }
                                if root_seen(s0, safe0, k, t as int) {
                                    let u = choose|u: int|
                                        0 <= u < t && (#[trigger] safe0[u]) == Some(
                                            start_of(s0, k) as usize,
                                        );
                                    assert(root_seen(s0, safe0, k, t + 1));
                                }
                            }
                        }
                    }
                },
            }
            t = t + 1;
        }
        proof {
            assert forall|i: int| 0 <= i < s0.len() implies (#[trigger] self.objs@[i]).header.gc_color
                == (if rooted(s0, safe0, i) {
                GCColor::Grey
            } else {
                GCColor::White
            }) by {
                assert(root_seen(s0, safe0, i, MAX_SAFE_REFS as int) <==> rooted(s0, safe0, i));
            }
            lemma_marks_layout(s0, self.objs@);
            assert forall|u: int| 0 <= u < self.refs.safe_refs@.len() implies ref_valid(
                self.objs@,
                #[trigger] self.refs.safe_refs@[u],
            ) by {
                assert(ref_valid(s0, safe0[u]));
            }
        }
    }

    /// Second phase: repeat full linear passes over the heap until a pass
    /// changes nothing. A pass blackens each grey object after greying its
    /// white children. Iterating to the fixed point instead of recursing is
    /// deliberate: the target's call stack is a few hundred bytes. At the
    /// fixed point an object is black exactly when a ref chain leads to it
    /// from an initially grey object, and white otherwise.
    fn gc_mark_recursive(&mut self)
        requires
            old(self).wf(),
            forall|i: int|
                0 <= i < old(self).objs@.len() ==> !is_black(#[trigger] old(self).objs@[i]),
        ensures
            final(self).wf(),
            final(self).refs == old(self).refs,
            final(self).objs.free_offset == old(self).objs.free_offset,
            all_same_but_marks(old(self).objs@, final(self).objs@),
            forall|i: int|
                0 <= i < old(self).objs@.len() ==> (#[trigger] final(self).objs@[i]).header.gc_shift
                    == old(self).objs@[i].header.gc_shift,
            forall|i: int|
                0 <= i < old(self).objs@.len() ==> !is_grey(#[trigger] final(self).objs@[i]),
            forall|i: int|
                0 <= i < old(self).objs@.len() ==> (is_black(#[trigger] final(self).objs@[i])
                    <==> reachable_from_grey(old(self).objs@, i)),
            black_children_marked(final(self).objs@),
    {
        let ghost s0 = old(self).objs@;
        let n = self.objs.objects.len();
        let mut done = false;
        proof {
            assert forall|a: int|
                0 <= a < n && !is_white(#[trigger] self.objs@[a]) implies reachable_from_grey(
                s0,
                a,
            ) by {
                assert(!is_black(s0[a]));
                assert(is_grey(s0[a]));
                lemma_reach_self(s0, a);
            }
            lemma_count_non_black_nonneg(self.objs@, n as int);
        }
        while !done
            invariant
                old(self).wf(),
                s0 == old(self).objs@,
                n == s0.len(),
                self.refs == old(self).refs,
                self.objs.free_offset == old(self).objs.free_offset,
                self.objs.wf(),
                self.objs@.len() == n,
                all_same_but_marks(s0, self.objs@),
                forall|a: int|
                    0 <= a < n ==> (#[trigger] self.objs@[a]).header.gc_shift
                        == s0[a].header.gc_shift,
                forall|a: int|
                    0 <= a < n && !is_white(#[trigger] self.objs@[a]) ==> reachable_from_grey(
                        s0,
                        a,
                    ),
                forall|a: int|
                    0 <= a < n && is_grey(s0[a]) ==> !is_white(#[trigger] self.objs@[a]),
                black_children_marked(self.objs@),
                count_non_black(self.objs@, n as int) >= 0,
                done ==> forall|a: int| 0 <= a < n ==> !is_grey(#[trigger] self.objs@[a]),
            decreases count_non_black(self.objs@, n as int) + (if done {
                0int
            } else {
                1int
            }),
        {
            done = true;
            let ghost sp = self.objs@;
            let mut i: usize = 0;
            while i < n
                invariant
                    old(self).wf(),
                    s0 == old(self).objs@,
                    n == s0.len(),
                    self.refs == old(self).refs,
                    self.objs.free_offset == old(self).objs.free_offset,
                    self.objs.wf(),
                    self.objs@.len() == n,
                    sp.len() == n,
                    i <= n,
                    all_same_but_marks(s0, self.objs@),
                    forall|a: int|
                        0 <= a < n ==> (#[trigger] self.objs@[a]).header.gc_shift
                            == s0[a].header.gc_shift,
                    forall|a: int|
                        0 <= a < n && !is_white(#[trigger] self.objs@[a]) ==> reachable_from_grey(
                            s0,
                            a,
                        ),
                    forall|a: int|
                        0 <= a < n && is_grey(s0[a]) ==> !is_white(#[trigger] self.objs@[a]),
                    black_children_marked(self.objs@),
                    forall|a: int|
                        0 <= a < n && is_black(#[trigger] sp[a]) ==> is_black(self.objs@[a]),
                    count_non_black(self.objs@, n as int) <= count_non_black(sp, n as int),
                    count_non_black(self.objs@, n as int) >= 0,
                    done ==> self.objs@ == sp,
                    done ==> forall|a: int| 0 <= a < i ==> !is_grey(#[trigger] sp[a]),
                    !done ==> count_non_black(self.objs@, n as int) < count_non_black(
                        sp,
                        n as int,
                    ),
                decreases n - i,
            {
                let color = self.objs.objects[i].header.gc_color;
                if color == GCColor::Grey {
                    let ghost sb = self.objs@;
                    let m = self.objs.objects[i].header.nr_of_refs;
                    proof {
                        assert(self.objs@[i as int].obj_wf());
                        assert(reachable_from_grey(s0, i as int)) by {
                            if is_grey(s0[i as int]) {
                                lemma_reach_self(s0, i as int);
                            }
                        }
                    }
                    let mut k: usize = 0;
                    while k < m
                        invariant
                            old(self).wf(),
                            s0 == old(self).objs@,
                            n == s0.len(),
                            self.refs == old(self).refs,
                            self.objs.free_offset == old(self).objs.free_offset,
                            self.objs.wf(),
                            self.objs@.len() == n,
                            sp.len() == n,
                            sb.len() == n,
                            i < n,
                            k <= m,
                            is_grey(self.objs@[i as int]),
                            reachable_from_grey(s0, i as int),
                            m == self.objs@[i as int].refs@.len(),
                            all_same_but_marks(s0, self.objs@),
                            forall|a: int|
                                0 <= a < n ==> (#[trigger] self.objs@[a]).header.gc_shift
                                    == s0[a].header.gc_shift,
                            forall|a: int|
                                0 <= a < n && !is_white(#[trigger] self.objs@[a])
                                    ==> reachable_from_grey(s0, a),
                            forall|a: int|
                                0 <= a < n && is_grey(s0[a]) ==> !is_white(
                                    #[trigger] self.objs@[a],
                                ),
                            black_children_marked(self.objs@),
                            forall|a: int|
                                0 <= a < n && is_black(#[trigger] sp[a]) ==> is_black(
                                    self.objs@[a],
                                ),
                            forall|a: int|
                                0 <= a < n && is_black(#[trigger] sb[a]) ==> is_black(
                                    self.objs@[a],
                                ),
                            count_non_black(self.objs@, n as int) <= count_non_black(
                                sb,
                                n as int,
                            ),
                            forall|kk: int|
                                0 <= kk < k && (#[trigger] self.objs@[i as int].refs@[kk]) is Some
                                    ==> !is_white(self.objs@[index_at(
                                    self.objs@,
                                    self.objs@[i as int].refs@[kk]->0 as int,
                                )]),
                        decreases m - k,
                    {
                        let slot = self.objs.objects[i].refs[k];
                        match slot {
                            None => {},
                            Some(child_off) => {
                                proof {
                                    assert(ref_valid(self.objs@, self.objs@[i as int].refs@[k as int]));
                                }
                                let c = self.objs.locate(child_off);
                                let ch = self.objs.objects[c].header;
                                proof {
                                    lemma_start_inj(
                                        self.objs@,
                                        c as int,
                                        index_at(self.objs@, child_off as int),
                                    );
                                }
                                if ch.gc_color == GCColor::White {
                                    let ghost before = self.objs@;
                                    self.objs.objects[c].header = ObjectHeader {
                                        gc_color: GCColor::Grey,
                                        gc_shift: ch.gc_shift,
                                        nr_of_ints: ch.nr_of_ints,
                                        nr_of_refs: ch.nr_of_refs,
                                    };
                                    proof {
                                        lemma_marks_layout(s0, self.objs@);
                                        assert(self.objs.wf());
                                        lemma_graph_congruent(s0, before);
                                        // the greyed child is reachable: extend a path to i
                                        let p = choose|p: Seq<int>|
                                            {
                                                &&& p.len() >= 1
                                                &&& 0 <= p[0] < s0.len()
                                                &&& is_grey(s0[p[0]])
                                                &&& p.last() == i as int
                                                &&& #[trigger] is_path(s0, p)
                                            };
                                        assert(before[i as int].refs@[k as int] == Some(
                                            child_off,
                                        ));
                                        assert(start_of(before, c as int) == child_off as int);
                                        lemma_same_layout_starts(s0, before);
                                        assert(before[i as int].refs@[k as int] == Some(
                                            start_of(before, c as int) as usize,
                                        ));
                                        assert(s0[i as int].refs@[k as int] == Some(
                                            start_of(s0, c as int) as usize,
                                        ));
                                        assert(edge(s0, i as int, c as int));
                                        lemma_path_extend(s0, p, c as int);
                                        assert(reachable_from_grey(s0, c as int));
                                        lemma_count_non_black_agree(before, self.objs@, n as int);
                                        lemma_count_non_black_nonneg(self.objs@, n as int);
                                        // blacks unchanged: only a white turned grey
                                        assert forall|a: int|
                                            0 <= a < n && is_black(#[trigger] sb[a]) implies is_black(
                                            self.objs@[a],
                                        ) by {}
                                    }
                                }
                            },
                        }
                        k = k + 1;
                    }
                    // all children are marked now: blacken the object
                    let ghost before = self.objs@;
                    let h = self.objs.objects[i].header;
                    self.objs.objects[i].header = ObjectHeader {
                        gc_color: GCColor::Black,
                        gc_shift: h.gc_shift,
                        nr_of_ints: h.nr_of_ints,
                        nr_of_refs: h.nr_of_refs,
                    };
                    done = false;
                    proof {
                        lemma_marks_layout(s0, self.objs@);
                        assert(self.objs.wf());
                        assert forall|a: int, kk: int|
                            0 <= a < n && is_black(self.objs@[a]) && 0 <= kk
                                < self.objs@[a].refs@.len() && (
                            #[trigger] self.objs@[a].refs@[kk]) is Some implies !is_white(
                            self.objs@[index_at(self.objs@, self.objs@[a].refs@[kk]->0 as int)],
                        ) by {
                            assert(same_layout(before, self.objs@));
                            lemma_same_layout_starts(before, self.objs@);
                            assert(ref_valid(before, before[a].refs@[kk]));
                            if a != i as int {
                                assert(is_black(before[a]));
                                assert(before[a].refs@[kk] == self.objs@[a].refs@[kk]);
                                assert(!is_white(before[index_at(
                                    before,
                                    before[a].refs@[kk]->0 as int,
                                )]));
                            } else {
                                assert(self.objs@[a].refs@[kk] == before[a].refs@[kk]);
                                assert(!is_white(before[index_at(
                                    before,
                                    before[a].refs@[kk]->0 as int,
                                )]));
                            }
                        }
                        lemma_count_non_black_lt(sp, self.objs@, n as int, i as int);
                        lemma_count_non_black_le(before, self.objs@, n as int);
                        lemma_count_non_black_nonneg(self.objs@, n as int);
                    }
                }
                i = i + 1;
            }
        }
        proof {
            let cur = self.objs@;
            assert forall|i: int|
                0 <= i < n && reachable_from_grey(s0, i) implies is_black(#[trigger] cur[i]) by {
                let p = choose|p: Seq<int>|
                    {
                        &&& p.len() >= 1
                        &&& 0 <= p[0] < s0.len()
                        &&& is_grey(s0[p[0]])
                        &&& p.last() == i
                        &&& #[trigger] is_path(s0, p)
                    };
                assert forall|a: int| 0 <= a < s0.len() && is_grey(s0[a]) implies is_black(
                    #[trigger] cur[a],
                ) by {
                    assert(!is_white(cur[a]));
                }
                lemma_marking_complete(s0, cur, p);
            }
            lemma_marks_layout(s0, self.objs@);
            assert forall|u: int| 0 <= u < self.refs.safe_refs@.len() implies ref_valid(
                self.objs@,
                #[trigger] self.refs.safe_refs@[u],
            ) by {
                assert(ref_valid(s0, old(self).refs.safe_refs@[u]));
            }
        }
    }

    /// Third phase: walk the objects in heap order keeping a running total
    /// of the white words seen so far, and record in each surviving object
    /// that total as its slide distance. White objects keep their stale
    /// shift; compaction discards them unread.
    fn gc_calculate_shifts(&mut self)
        requires
            old(self).wf(),
        ensures
            final(self).wf(),
            final(self).refs == old(self).refs,
            final(self).objs.free_offset == old(self).objs.free_offset,
            final(self).objs@.len() == old(self).objs@.len(),
            forall|i: int|
                0 <= i < old(self).objs@.len() ==> same_but_shift(
                    old(self).objs@[i],
                    #[trigger] final(self).objs@[i],
                ),
            forall|i: int|
                0 <= i < old(self).objs@.len() && !is_white(old(self).objs@[i]) ==> (
                #[trigger] final(self).objs@[i]).header.gc_shift == white_before(
                    old(self).objs@,
                    i,
                ),
            forall|i: int|
                0 <= i < old(self).objs@.len() && is_white(old(self).objs@[i]) ==> (
                #[trigger] final(self).objs@[i]).header.gc_shift == old(
                    self,
                ).objs@[i].header.gc_shift,
    {
        let ghost s0 = old(self).objs@;
        let n = self.objs.objects.len();
        let mut shift: usize = 0;
        let mut i: usize = 0;
        while i < n
            invariant
                old(self).wf(),
                s0 == old(self).objs@,
                n == s0.len(),
                i <= n,
                self.refs == old(self).refs,
                self.objs.free_offset == old(self).objs.free_offset,
                self.objs.wf(),
                self.objs@.len() == n,
                shift == white_before(s0, i as int),
                forall|k: int| 0 <= k < n ==> same_but_shift(s0[k], #[trigger] self.objs@[k]),
                forall|k: int|
                    0 <= k < i && !is_white(s0[k]) ==> (#[trigger] self.objs@[k]).header.gc_shift
                        == white_before(s0, k),
                forall|k: int|
                    ((0 <= k < i && is_white(s0[k])) || i <= k < n) ==> (
                    #[trigger] self.objs@[k]).header.gc_shift == s0[k].header.gc_shift,
            decreases n - i,
        {
            proof {
                lemma_white_before_le_start(s0, i as int);
                lemma_white_before_le_start(s0, i + 1);
                lemma_obj_size_bound(s0, i as int);
                lemma_start_of_le(s0, i + 1, n as int);
                assert(self.objs@[i as int].obj_wf());
                assert(self.objs@[i as int].size() == s0[i as int].size());
            }
            let h = self.objs.objects[i].header;
            if h.gc_color == GCColor::White {
                let sz = h.object_size();
                shift = shift + sz;
            } else {
                self.objs.objects[i].header = ObjectHeader {
                    gc_color: h.gc_color,
                    gc_shift: shift,
                    nr_of_ints: h.nr_of_ints,
                    nr_of_refs: h.nr_of_refs,
                };
                proof {
                    assert(all_same_but_marks(s0, self.objs@));
                    lemma_marks_layout(s0, self.objs@);
                    assert(self.objs.wf());
                }
            }
            i = i + 1;
        }
        proof {
            assert(all_same_but_marks(s0, self.objs@));
            lemma_marks_layout(s0, self.objs@);
            assert forall|u: int| 0 <= u < self.refs.safe_refs@.len() implies ref_valid(
                self.objs@,
                #[trigger] self.refs.safe_refs@[u],
            ) by {
                assert(ref_valid(s0, old(self).refs.safe_refs@[u]));
            }
        }
    }

    /// Fourth phase: write the post-slide offset of its referent into
    /// every occupied safe-handle slot and into every non-null ref field of
    /// every surviving object. White objects are left alone: compaction
    /// discards them, and their stale shifts must not be read.
    fn gc_update_refs(&mut self)
        requires
            old(self).wf(),
            forall|i: int| 0 <= i < old(self).objs@.len() ==> !is_grey(#[trigger] old(self).objs@[i]),
            black_children_marked(old(self).objs@),
            roots_black(old(self).objs@, old(self).refs.safe_refs@),
            forall|i: int|
                0 <= i < old(self).objs@.len() && is_black(old(self).objs@[i]) ==> (
                #[trigger] old(self).objs@[i]).header.gc_shift == white_before(old(self).objs@, i),
        ensures
            final(self).objs.sized_wf(),
            final(self).objs.free_offset == old(self).objs.free_offset,
            final(self).objs@.len() == old(self).objs@.len(),
            final(self).refs.safe_refs@.len() == old(self).refs.safe_refs@.len(),
            forall|i: int|
                0 <= i < old(self).objs@.len() ==> same_but_refs(
                    old(self).objs@[i],
                    #[trigger] final(self).objs@[i],
                ),
            forall|i: int|
                0 <= i < old(self).objs@.len() && is_white(old(self).objs@[i])
                    ==> #[trigger] final(self).objs@[i] == old(self).objs@[i],
            forall|i: int, k: int|
                0 <= i < old(self).objs@.len() && is_black(old(self).objs@[i]) && 0 <= k < old(
                    self,
                ).objs@[i].refs@.len() ==> (#[trigger] final(self).objs@[i].refs@[k])
                    == rewritten_ref(old(self).objs@, old(self).objs@[i].refs@[k]),
            forall|t: int|
                0 <= t < old(self).refs.safe_refs@.len()
                    ==> #[trigger] final(self).refs.safe_refs@[t] == rewritten_ref(
                    old(self).objs@,
                    old(self).refs.safe_refs@[t],
                ),
    {
        let ghost s0 = old(self).objs@;
        let ghost safe0 = old(self).refs.safe_refs@;
        let mut t: usize = 0;
        while t < MAX_SAFE_REFS
            invariant
                old(self).wf(),
                s0 == old(self).objs@,
                safe0 == old(self).refs.safe_refs@,
                roots_black(s0, safe0),
                forall|i: int|
                    0 <= i < s0.len() && is_black(s0[i]) ==> (
                    #[trigger] s0[i]).header.gc_shift == white_before(s0, i),
                self.objs == old(self).objs,
                self.refs.safe_refs@.len() == MAX_SAFE_REFS,
                t <= MAX_SAFE_REFS,
                forall|u: int| t <= u < MAX_SAFE_REFS ==> #[trigger] self.refs.safe_refs@[u] == safe0[u],
                forall|u: int|
                    0 <= u < t ==> #[trigger] self.refs.safe_refs@[u] == rewritten_ref(s0, safe0[u]),
            decreases MAX_SAFE_REFS - t,
        {
            let slot = self.refs.safe_refs[t];
            match slot {
                None => {},
                Some(off) => {
                    proof {
                        assert(ref_valid(s0, safe0[t as int]));
                    }
                    let c = self.objs.locate(off);
                    let sh = self.objs.objects[c].header.gc_shift;
                    proof {
                        lemma_start_inj(s0, c as int, index_at(s0, off as int));
                        assert(is_black(s0[c as int]));
                        lemma_white_before_le_start(s0, c as int);
                    }
                    self.refs.safe_refs[t] = Some(off - sh);
                },
            }
            t = t + 1;
        }
        let ghost safe1 = self.refs.safe_refs@;
        let n = self.objs.objects.len();
        let mut i: usize = 0;
        while i < n
            invariant
                old(self).wf(),
                s0 == old(self).objs@,
                forall|a: int| 0 <= a < s0.len() ==> !is_grey(#[trigger] s0[a]),
                black_children_marked(s0),
                forall|a: int|
                    0 <= a < s0.len() && is_black(s0[a]) ==> (
                    #[trigger] s0[a]).header.gc_shift == white_before(s0, a),
                self.refs.safe_refs@ == safe1,
                n == s0.len(),
                i <= n,
                self.objs@.len() == n,
                self.objs.free_offset == old(self).objs.free_offset,
                self.objs.sized_wf(),
                forall|a: int| 0 <= a < n ==> same_but_refs(s0[a], #[trigger] self.objs@[a]),
                forall|a: int| i <= a < n ==> #[trigger] self.objs@[a] == s0[a],
                forall|a: int|
                    0 <= a < i && is_white(s0[a]) ==> #[trigger] self.objs@[a] == s0[a],
                forall|a: int, k: int|
                    0 <= a < i && is_black(s0[a]) && 0 <= k < s0[a].refs@.len() ==> (
                    #[trigger] self.objs@[a].refs@[k]) == rewritten_ref(s0, s0[a].refs@[k]),
            decreases n - i,
        {
            proof {
                assert(same_but_refs(s0[i as int], self.objs@[i as int]));
                assert(s0[i as int].obj_wf());
            }
            let color = self.objs.objects[i].header.gc_color;
            if color == GCColor::Black {
                let m = self.objs.objects[i].header.nr_of_refs;
                let mut k: usize = 0;
                while k < m
                    invariant
                        old(self).wf(),
                        s0 == old(self).objs@,
                        forall|a: int| 0 <= a < s0.len() ==> !is_grey(#[trigger] s0[a]),
                        black_children_marked(s0),
                        forall|a: int|
                            0 <= a < s0.len() && is_black(s0[a]) ==> (
                            #[trigger] s0[a]).header.gc_shift == white_before(s0, a),
                        self.refs.safe_refs@ == safe1,
                        n == s0.len(),
                        i < n,
                        is_black(s0[i as int]),
                        m == s0[i as int].refs@.len(),
                        k <= m,
                        self.objs@.len() == n,
                        self.objs.free_offset == old(self).objs.free_offset,
                        self.objs.sized_wf(),
                        forall|a: int| 0 <= a < n ==> same_but_refs(s0[a], #[trigger] self.objs@[a]),
                        forall|a: int|
                            i < a < n ==> #[trigger] self.objs@[a] == s0[a],
                        forall|a: int|
                            0 <= a < i && is_white(s0[a]) ==> #[trigger] self.objs@[a] == s0[a],
                        forall|a: int, kk: int|
                            0 <= a < i && is_black(s0[a]) && 0 <= kk < s0[a].refs@.len() ==> (
                            #[trigger] self.objs@[a].refs@[kk]) == rewritten_ref(
                                s0,
                                s0[a].refs@[kk],
                            ),
                        self.objs@[i as int].header == s0[i as int].header,
                        self.objs@[i as int].ints@ == s0[i as int].ints@,
                        forall|kk: int|
                            k <= kk < m ==> #[trigger] self.objs@[i as int].refs@[kk]
                                == s0[i as int].refs@[kk],
                        forall|kk: int|
                            0 <= kk < k ==> #[trigger] self.objs@[i as int].refs@[kk]
                                == rewritten_ref(s0, s0[i as int].refs@[kk]),
                    decreases m - k,
                {
                    let slot = self.objs.objects[i].refs[k];
                    match slot {
                        None => {},
                        Some(child_off) => {
                            proof {
                                assert(self.objs@[i as int].refs@[k as int] == s0[i as int].refs@[k
                                    as int]);
                                assert(ref_valid(s0, s0[i as int].refs@[k as int]));
                                assert(same_layout(s0, self.objs@));
                                lemma_same_layout_starts(s0, self.objs@);
                                assert(is_obj_start(self.objs@, child_off as int));
                            }
                            let c = self.objs.locate(child_off);
                            let sh = self.objs.objects[c].header.gc_shift;
                            proof {
                                lemma_same_layout_starts(s0, self.objs@);
                                lemma_start_inj(s0, c as int, index_at(s0, child_off as int));
                                assert(s0[i as int].refs@[k as int] == Some(child_off));
                                assert(!is_white(s0[index_at(
                                    s0,
                                    s0[i as int].refs@[k as int]->0 as int,
                                )]));
                                assert(is_black(s0[c as int]));
                                assert(sh == white_before(s0, c as int));
                                lemma_white_before_le_start(s0, c as int);
                            }
                            self.objs.objects[i].refs[k] = Some(child_off - sh);
                            proof {
                                assert(self.objs@[i as int].refs@[k as int] == rewritten_ref(
                                    s0,
                                    s0[i as int].refs@[k as int],
                                ));
                                assert(same_layout(s0, self.objs@));
                                lemma_same_layout_starts(s0, self.objs@);
                                assert(self.objs.sized_wf());
                            }
                        },
                    }
                    k = k + 1;
                }
            }
            i = i + 1;
        }
    }

    /// Fifth phase: slide the survivors down by dropping every white
    /// object, and give the reclaimed words back to the bump offset.
    fn gc_compact(&mut self)
        requires
            old(self).objs.sized_wf(),
        ensures
            final(self).objs.sized_wf(),
            final(self).refs == old(self).refs,
            final(self).objs@ == survivors(old(self).objs@),
            final(self).objs.free_offset == old(self).objs.free_offset - white_before(
                old(self).objs@,
                old(self).objs@.len() as int,
            ),
    {
        let ghost s0 = old(self).objs@;
        let n = self.objs.objects.len();
        let mut kept: Vec<HeapObject> = Vec::new();
        let mut bytes_saved: usize = 0;
        let mut i: usize = 0;
        while i < n
            invariant
                old(self).objs.sized_wf(),
                s0 == old(self).objs@,
                n == s0.len(),
                i <= n,
                self.refs == old(self).refs,
                self.objs.free_offset == old(self).objs.free_offset,
                self.objs.objects@ == s0.skip(i as int),
                kept@ == survivors(s0.take(i as int)),
                bytes_saved == white_before(s0, i as int),
            decreases n - i,
        {
            proof {
                assert(s0.skip(i as int)[0] == s0[i as int]);
                lemma_white_before_le_start(s0, i + 1);
                lemma_obj_size_bound(s0, i as int);
                lemma_start_of_le(s0, i + 1, n as int);
                assert(s0[i as int].obj_wf());
            }
            let o = self.objs.objects.remove(0);
            proof {
                assert(self.objs.objects@ =~= s0.skip(i + 1));
                assert(s0.take(i + 1).drop_last() =~= s0.take(i as int));
                assert(s0.take(i + 1).last() == s0[i as int]);
            }
            if o.header.gc_color == GCColor::White {
                let sz = o.header.object_size();
                bytes_saved = bytes_saved + sz;
            } else {
                kept.push(o);
            }
            i = i + 1;
        }
        proof {
            assert(s0.take(n as int) =~= s0);
            lemma_survivors_total(s0);
            lemma_white_before_le_start(s0, n as int);
            assert forall|k: int| 0 <= k < survivors(s0).len() implies (
            #[trigger] survivors(s0)[k]).obj_wf() by {
                lemma_survivors_from(s0, k);
            }
        }
        self.objs.objects = kept;
        self.objs.free_offset = self.objs.free_offset - bytes_saved;
    }
}

/// Every compacted object already stood in the heap before the slide.
pub proof fn lemma_survivors_from(s: Seq<HeapObject>, k: int)
    requires
        0 <= k < survivors(s).len(),
    ensures
        exists|j: int| 0 <= j < s.len() && s[j] == survivors(s)[k] && !is_white(s[j]),
    decreases s.len(),
{
    if s.len() > 0 {
        let d = s.drop_last();
        if is_white(s.last()) {
            lemma_survivors_from(d, k);
            let j = choose|j: int| 0 <= j < d.len() && d[j] == survivors(d)[k] && !is_white(d[j]);
            assert(s[j] == survivors(s)[k] && !is_white(s[j]));
        } else {
            if k == survivors(s).len() - 1 {
                assert(s[s.len() - 1] == survivors(s)[k] && !is_white(s[s.len() - 1]));
            } else {
                lemma_survivors_from(d, k);
                let j = choose|j: int|
                    0 <= j < d.len() && d[j] == survivors(d)[k] && !is_white(d[j]);
                assert(s[j] == survivors(s)[k] && !is_white(s[j]));
            }
        }
    }
}


/// A slot of the root table reaches its referent in one step.
pub proof fn lemma_rooted_reachable(s: Seq<HeapObject>, safe: Seq<Option<usize>>, i: int)
    requires
        rooted(s, safe, i),
    ensures
        reachable(s, safe, i),
{
    let p = seq![i];
    assert(is_path(s, p));
    assert(p.len() >= 1 && p[0] == i && p.last() == i);
}

/// The five phases composed: in terms of the heap at the start of the
/// collection, where every survivor stands after it, with what contents,
/// and what the safe-handle table holds.
#[verifier::rlimit(50)]
proof fn lemma_gc_glue(
    s0: Seq<HeapObject>,
    safe0: Seq<Option<usize>>,
    s3: Seq<HeapObject>,
    s4: Seq<HeapObject>,
    safe4: Seq<Option<usize>>,
    s5: Seq<HeapObject>,
)
    requires
        total_size(s0) <= MEM_SIZE,
        forall|i: int| 0 <= i < s0.len() ==> (#[trigger] s0[i]).obj_wf(),
        all_refs_valid(s0),
        forall|u: int| 0 <= u < safe0.len() ==> ref_valid(s0, #[trigger] safe0[u]),
        // after marking and shift computation
        all_same_but_marks(s0, s3),
        forall|i: int| 0 <= i < s0.len() ==> !is_grey(#[trigger] s3[i]),
        forall|i: int|
            0 <= i < s0.len() ==> (is_black(#[trigger] s3[i]) <==> reachable(s0, safe0, i)),
        black_children_marked(s3),
        // after reference rewriting
        s4.len() == s0.len(),
        forall|i: int| 0 <= i < s0.len() ==> same_but_refs(s3[i], #[trigger] s4[i]),
        forall|i: int| 0 <= i < s0.len() && is_white(s3[i]) ==> #[trigger] s4[i] == s3[i],
        forall|i: int, k: int|
            0 <= i < s0.len() && is_black(s3[i]) && 0 <= k < s3[i].refs@.len() ==> (
            #[trigger] s4[i].refs@[k]) == rewritten_ref(s3, s3[i].refs@[k]),
        safe4.len() == safe0.len(),
        forall|u: int|
            0 <= u < safe0.len() ==> #[trigger] safe4[u] == rewritten_ref(s3, safe0[u]),
        // after compaction
        s5 == survivors(s4),
    ensures
        white_before(s4, s0.len() as int) == dead_before(s0, safe0, s0.len() as int),
        0 <= dead_before(s0, safe0, s0.len() as int),
        total_size(s5) == total_size(s0) - dead_before(s0, safe0, s0.len() as int),
        s5.len() == live_index(s0, safe0, s0.len() as int),
        forall|i: int| 0 <= i < s5.len() ==> (#[trigger] s5[i]).obj_wf(),
        all_refs_valid(s5),
        forall|u: int|
            0 <= u < safe0.len() ==> #[trigger] safe4[u] == gc_ref(s0, safe0, safe0[u]),
        forall|u: int| 0 <= u < safe0.len() ==> ref_valid(s5, #[trigger] safe4[u]),
        forall|i: int|
            0 <= i < s0.len() && #[trigger] reachable(s0, safe0, i) ==> {
                let i2 = live_index(s0, safe0, i);
                &&& 0 <= i2 < s5.len()
                &&& s5[i2].header.nr_of_ints == s0[i].header.nr_of_ints
                &&& s5[i2].header.nr_of_refs == s0[i].header.nr_of_refs
                &&& s5[i2].header.gc_color is Black
                &&& s5[i2].ints@ == s0[i].ints@
                &&& s5[i2].refs@.len() == s0[i].refs@.len()
                &&& forall|k: int|
                    0 <= k < s0[i].refs@.len() ==> #[trigger] s5[i2].refs@[k] == gc_ref(
                        s0,
                        safe0,
                        s0[i].refs@[k],
                    )
                &&& start_of(s5, i2) == start_of(s0, i) - dead_before(s0, safe0, i)
            },
        forall|j: int| 0 <= j < s5.len() ==> #[trigger] live_image(s0, safe0, j),
        gc_post(s0, safe0, s5, safe4),
{
    let n = s0.len() as int;
    lemma_marks_layout(s0, s3);
    // layout of the rewritten heap equals the marked one
    assert(same_layout(s3, s4)) by {
        assert forall|i: int| 0 <= i < s3.len() implies (#[trigger] s4[i]).size() == s3[i].size() by {
            assert(same_but_refs(s3[i], s4[i]));
        }
    }
    lemma_same_layout_starts(s3, s4);
    // colors and sizes carry from s3 to s4
    assert forall|j: int| 0 <= j < n implies ((is_white(#[trigger] s4[j]) <==> !reachable(
        s0,
        safe0,
        j,
    )) && (is_black(s4[j]) <==> reachable(s0, safe0, j)) && s4[j].size() == s0[j].size()
        && s4[j].size() == s3[j].size()) by {
        assert(same_but_refs(s3[j], s4[j]));
        assert(same_but_marks(s0[j], s3[j]));
    }
    // slide distances agree with the reachability-based account
    assert forall|i: int| 0 <= i <= n implies (#[trigger] white_before(s4, i) == dead_before(
        s0,
        safe0,
        i,
    ) && white_before(s3, i) == dead_before(s0, safe0, i) && new_index(s4, i) == live_index(
        s0,
        safe0,
        i,
    )) by {
        lemma_dead_white(s0, safe0, s4, i);
        lemma_dead_white(s0, safe0, s3, i);
    }
    lemma_white_before_le_start(s4, n);
    lemma_survivors_total(s4);
    // a rewritten reference is the collection's reference value
    assert forall|r: Option<usize>| ref_valid(s0, r) implies #[trigger] rewritten_ref(s3, r)
        == gc_ref(s0, safe0, r) by {
        match r {
            None => {},
            Some(t) => {
                let c = index_at(s0, t as int);
                assert(0 <= c < n && start_of(s0, c) == t as int);
                assert(start_of(s3, c) == t as int);
                lemma_start_inj(s3, c, index_at(s3, t as int));
                assert(index_at(s3, t as int) == c);
                assert(white_before(s4, c) == dead_before(s0, safe0, c));
                assert(white_before(s3, c) == dead_before(s0, safe0, c));
            },
        }
    }
    // the survivors: contents, position, and validity of their refs
    assert forall|i: int| 0 <= i < n && #[trigger] reachable(s0, safe0, i) implies {
        let i2 = live_index(s0, safe0, i);
        &&& 0 <= i2 < s5.len()
        &&& s5[i2] == s4[i]
        &&& start_of(s5, i2) == start_of(s0, i) - dead_before(s0, safe0, i)
    } by {
        assert(!is_white(s4[i]));
        lemma_survivors_index(s4, i);
        assert(start_of(s4, i) == start_of(s0, i));
    }
    assert forall|i: int| 0 <= i < n && #[trigger] reachable(s0, safe0, i) implies {
        let i2 = live_index(s0, safe0, i);
        &&& s5[i2].header.nr_of_ints == s0[i].header.nr_of_ints
        &&& s5[i2].header.nr_of_refs == s0[i].header.nr_of_refs
        &&& s5[i2].header.gc_color is Black
        &&& s5[i2].ints@ == s0[i].ints@
        &&& s5[i2].refs@.len() == s0[i].refs@.len()
        &&& forall|k: int|
            0 <= k < s0[i].refs@.len() ==> #[trigger] s5[i2].refs@[k] == gc_ref(
                s0,
                safe0,
                s0[i].refs@[k],
            )
    } by {
        let i2 = live_index(s0, safe0, i);
        assert(s5[i2] == s4[i]);
        assert(same_but_refs(s3[i], s4[i]));
        assert(same_but_marks(s0[i], s3[i]));
        assert(is_black(s3[i]) && is_black(s4[i]));
        assert forall|k: int| 0 <= k < s0[i].refs@.len() implies #[trigger] s5[i2].refs@[k]
            == gc_ref(s0, safe0, s0[i].refs@[k]) by {
            assert(s4[i].refs@[k] == rewritten_ref(s3, s3[i].refs@[k]));
            assert(s3[i].refs@[k] == s0[i].refs@[k]);
            assert(ref_valid(s0, s0[i].refs@[k]));
        }
    }
    // every object of the compacted heap is a rewritten survivor
    assert forall|j: int| 0 <= j < s5.len() implies (#[trigger] s5[j]).obj_wf() && (forall|k: int|
        0 <= k < s5[j].refs@.len() ==> ref_valid(s5, #[trigger] s5[j].refs@[k])) by {
        lemma_survivors_from(s4, j);
        let a = choose|a: int| 0 <= a < s4.len() && s4[a] == s5[j] && !is_white(s4[a]);
        assert(same_but_refs(s3[a], s4[a]));
        assert(s0[a].obj_wf() && same_but_marks(s0[a], s3[a]));
        assert(s5[j].obj_wf());
        assert(!is_white(s4[a]));
        assert(is_black(s3[a]));
        assert forall|k: int| 0 <= k < s5[j].refs@.len() implies ref_valid(
            s5,
            #[trigger] s5[j].refs@[k],
        ) by {
            assert(s4[a].refs@[k] == rewritten_ref(s3, s3[a].refs@[k]));
            match s3[a].refs@[k] {
                None => {},
                Some(t) => {
                    assert(s3[a].refs@[k] == s0[a].refs@[k]);
                    assert(ref_valid(s0, s0[a].refs@[k]));
                    let c = index_at(s0, t as int);
                    assert(start_of(s0, c) == t as int);
                    assert(start_of(s3, c) == t as int);
                    lemma_start_inj(s3, c, index_at(s3, t as int));
                    // the referent is black, so it survives at a start of s5
                    assert(!is_white(s3[index_at(s3, s3[a].refs@[k]->0 as int)]));
                    assert(!is_white(s4[c]));
                    lemma_survivors_index(s4, c);
                    lemma_obj_size_bound(s0, c);
                    lemma_white_before_le_start(s4, c);
                    assert(start_of(s4, c) == t as int);
                    assert(s5[j].refs@[k] == Some(
                        (t - white_before(s3, c)) as usize,
                    ));
                    assert(white_before(s3, c) == white_before(s4, c));
                    assert(start_of(s5, new_index(s4, c)) == t - white_before(s4, c));
                    assert(is_obj_start(s5, (t - white_before(s4, c)) as usize as int));
                },
            }
        }
    }
    // the rewritten safe-handle slots
    assert forall|u: int| 0 <= u < safe0.len() implies (#[trigger] safe4[u] == gc_ref(
        s0,
        safe0,
        safe0[u],
    ) && ref_valid(s5, safe4[u])) by {
        assert(ref_valid(s0, safe0[u]));
        match safe0[u] {
            None => {},
            Some(off) => {
                let c = index_at(s0, off as int);
                assert(start_of(s0, c) == off as int);
                lemma_obj_size_bound(s0, c);
                assert(safe0[u] == Some(start_of(s0, c) as usize));
                assert(rooted(s0, safe0, c));
                lemma_rooted_reachable(s0, safe0, c);
                assert(is_black(s3[c]) && !is_white(s4[c]));
                assert(start_of(s3, c) == off as int);
                lemma_start_inj(s3, c, index_at(s3, off as int));
                lemma_survivors_index(s4, c);
                lemma_white_before_le_start(s4, c);
                assert(start_of(s4, c) == off as int);
                assert(safe4[u] == Some((off - white_before(s3, c)) as usize));
                assert(white_before(s3, c) == white_before(s4, c));
                assert(start_of(s5, new_index(s4, c)) == off - white_before(s4, c));
                assert(is_obj_start(s5, (off - white_before(s4, c)) as usize as int));
            },
        }
    }
    assert forall|j: int| 0 <= j < s5.len() implies #[trigger] live_image(s0, safe0, j) by {
        lemma_survivors_preimage(s4, j);
        let j0 = choose|j0: int| 0 <= j0 < s4.len() && !is_white(s4[j0]) && new_index(s4, j0) == j;
        assert(white_before(s4, j0) == dead_before(s0, safe0, j0));
        assert(reachable(s0, safe0, j0) && live_index(s0, safe0, j0) == j);
    }
}

/// Every index of the compacted heap is some survivor's new index.
pub proof fn lemma_survivors_preimage(s: Seq<HeapObject>, k: int)
    requires
        0 <= k < survivors(s).len(),
    ensures
        exists|j: int| 0 <= j < s.len() && !is_white(s[j]) && new_index(s, j) == k,
    decreases s.len(),
{
    if s.len() > 0 {
        let d = s.drop_last();
        lemma_survivors_total(d);
        lemma_white_before_agree(s, d, s.len() - 1);
        if is_white(s.last()) {
            lemma_survivors_preimage(d, k);
            let j = choose|j: int| 0 <= j < d.len() && !is_white(d[j]) && new_index(d, j) == k;
            lemma_white_before_agree(s, d, j);
            assert(0 <= j < s.len() && !is_white(s[j]) && new_index(s, j) == k);
        } else {
            if k == survivors(d).len() {
                let j = s.len() - 1;
                assert(0 <= j < s.len() && !is_white(s[j]) && new_index(s, j) == k);
            } else {
                lemma_survivors_preimage(d, k);
                let j = choose|j: int|
                    0 <= j < d.len() && !is_white(d[j]) && new_index(d, j) == k;
                lemma_white_before_agree(s, d, j);
                assert(0 <= j < s.len() && !is_white(s[j]) && new_index(s, j) == k);
            }
        }
    }
}

/// Index `j` of the compacted heap is the survivor index of some reachable
/// object.
pub open spec fn live_image(s: Seq<HeapObject>, safe: Seq<Option<usize>>, j: int) -> bool {
    exists|i: int|
        0 <= i < s.len() && #[trigger] reachable(s, safe, i) && live_index(s, safe, i) == j
}

/// The relation one collection establishes between the heap at its start
/// (`s`, `safe`) and the heap at its end (`t`, `nsafe`): exactly the
/// reachable objects survive, in order, each at its survivor index and
/// slid-down offset, with its int fields and field counts intact and every
/// reference (in a field or a table slot) pointing at the slid position of
/// its old referent.
pub open spec fn gc_post(
    s: Seq<HeapObject>,
    safe: Seq<Option<usize>>,
    t: Seq<HeapObject>,
    nsafe: Seq<Option<usize>>,
) -> bool {
    &&& t.len() == live_index(s, safe, s.len() as int)
    &&& nsafe.len() == safe.len()
    &&& forall|u: int| 0 <= u < safe.len() ==> #[trigger] nsafe[u] == gc_ref(s, safe, safe[u])
    &&& forall|i: int|
        0 <= i < s.len() && #[trigger] reachable(s, safe, i) ==> {
            let i2 = live_index(s, safe, i);
            &&& 0 <= i2 < t.len()
            &&& t[i2].header.nr_of_ints == s[i].header.nr_of_ints
            &&& t[i2].header.nr_of_refs == s[i].header.nr_of_refs
            &&& t[i2].header.gc_color is Black
            &&& t[i2].ints@ == s[i].ints@
            &&& t[i2].refs@.len() == s[i].refs@.len()
            &&& forall|k: int|
                0 <= k < s[i].refs@.len() ==> #[trigger] t[i2].refs@[k] == gc_ref(
                    s,
                    safe,
                    s[i].refs@[k],
                )
            &&& start_of(t, i2) == start_of(s, i) - dead_before(s, safe, i)
        }
    &&& forall|j: int| 0 <= j < t.len() ==> #[trigger] live_image(s, safe, j)
}

/// After the roots are greyed, reaching from a grey object is exactly
/// reaching from the safe-handle table.
pub proof fn lemma_grey_reach_equiv(
    s0: Seq<HeapObject>,
    safe0: Seq<Option<usize>>,
    s1: Seq<HeapObject>,
)
    requires
        all_same_but_marks(s0, s1),
        forall|i: int|
            0 <= i < s0.len() ==> (#[trigger] s1[i]).header.gc_color == (if rooted(s0, safe0, i) {
                GCColor::Grey
            } else {
                GCColor::White
            }),
    ensures
        forall|j: int| #[trigger] reachable(s0, safe0, j) <==> reachable_from_grey(s1, j),
{
    lemma_graph_congruent(s0, s1);
    assert forall|j: int| #[trigger] reachable(s0, safe0, j) <==> reachable_from_grey(s1, j) by {
        if reachable(s0, safe0, j) {
            let p = choose|p: Seq<int>|
                {
                    &&& p.len() >= 1
                    &&& rooted(s0, safe0, p[0])
                    &&& p.last() == j
                    &&& #[trigger] is_path(s0, p)
                };
            assert(is_path(s1, p));
            assert(is_grey(s1[p[0]]));
            assert(reachable_from_grey(s1, j));
        }
        if reachable_from_grey(s1, j) {
            let p = choose|p: Seq<int>|
                {
                    &&& p.len() >= 1
                    &&& 0 <= p[0] < s1.len()
                    &&& is_grey(s1[p[0]])
                    &&& p.last() == j
                    &&& #[trigger] is_path(s1, p)
                };
            assert(rooted(s0, safe0, p[0]));
            assert(is_path(s0, p));
            assert(reachable(s0, safe0, j));
        }
    }
}

impl Heap {
    /// Collect: reclaim every object the safe-handle table does not reach
    /// and slide the survivors toward the base of the heap. Legal only when
    /// no mutating or read handle is in use. Afterwards the heap is again
    /// well formed; each reachable object stands at its survivor index with
    /// its int fields intact, its header counts intact, and each ref field
    /// and safe-handle slot pointing at the slid position of its old
    /// referent; the bump offset drops by exactly the unreachable words.
    pub fn gc(&mut self)
        requires
            old(self).wf(),
        ensures
            final(self).wf(),
            gc_post(
                old(self).objs@,
                old(self).refs.safe_refs@,
                final(self).objs@,
                final(self).refs.safe_refs@,
            ),
            final(self).objs.free_offset == total_size(old(self).objs@) - dead_before(
                old(self).objs@,
                old(self).refs.safe_refs@,
                old(self).objs@.len() as int,
            ),
    {
        let ghost s0 = self.objs@;
        let ghost safe0 = self.refs.safe_refs@;
        let ghost n = s0.len() as int;
        self.gc_mark_root_set();
        let ghost s1 = self.objs@;
        proof {
            assert forall|i: int| 0 <= i < n implies !is_black(#[trigger] self.objs@[i]) by {}
        }
        self.gc_mark_recursive();
        let ghost s2 = self.objs@;
        proof {
            lemma_grey_reach_equiv(s0, safe0, s1);
            assert(all_same_but_marks(s0, s2));
            assert forall|i: int| 0 <= i < n implies ((is_black(#[trigger] s2[i]) <==> reachable(
                s0,
                safe0,
                i,
            )) && (is_white(s2[i]) <==> !reachable(s0, safe0, i))) by {
                assert(is_black(s2[i]) <==> reachable_from_grey(s1, i));
                assert(!is_grey(s2[i]));
            }
        }
        self.gc_calculate_shifts();
        let ghost s3 = self.objs@;
        proof {
            // colors carried over; shifts of the survivors are their slide distances
            assert(all_same_but_marks(s0, s3));
            assert forall|i: int| 0 <= i < n implies !is_grey(#[trigger] s3[i]) by {
                assert(same_but_shift(s2[i], s3[i]));
            }
            assert forall|i: int| 0 <= i < n && is_black(#[trigger] s3[i]) implies s3[
                i
            ].header.gc_shift == white_before(s3, i) by {
                assert(same_but_shift(s2[i], s3[i]));
                assert(white_before(s2, i) == white_before(s3, i)) by {
                    assert forall|j: int| 0 <= j < i implies is_white(s2[j]) == is_white(
                        #[trigger] s3[j],
                    ) && s2[j].size() == s3[j].size() by {
                        assert(same_but_shift(s2[j], s3[j]));
                    }
                    lemma_white_before_agree(s2, s3, i);
                }
            }
            // black objects reference black objects
            assert(black_children_marked(s3)) by {
                lemma_marks_layout(s2, s3);
                assert forall|i: int, k: int|
                    0 <= i < s3.len() && is_black(s3[i]) && 0 <= k < s3[i].refs@.len() && (
                    #[trigger] s3[i].refs@[k]) is Some implies !is_white(
                    s3[index_at(s3, s3[i].refs@[k]->0 as int)],
                ) by {
                    assert(same_but_shift(s2[i], s3[i]));
                    assert(s2[i].refs@[k] == s3[i].refs@[k]);
                    assert(!is_white(s2[index_at(s2, s2[i].refs@[k]->0 as int)]));
                    assert(index_at(s3, s3[i].refs@[k]->0 as int) == index_at(
                        s2,
                        s2[i].refs@[k]->0 as int,
                    )) by {
                        assert(ref_valid(s2, s2[i].refs@[k]));
                    }
                    assert(same_but_shift(
                        s2[index_at(s2, s2[i].refs@[k]->0 as int)],
                        s3[index_at(s2, s2[i].refs@[k]->0 as int)],
                    ));
                }
            }
            // every occupied slot addresses a black object
            assert(roots_black(s3, safe0)) by {
                lemma_marks_layout(s0, s3);
                assert forall|u: int|
                    0 <= u < safe0.len() && (#[trigger] safe0[u]) is Some implies is_black(
                    s3[index_at(s3, safe0[u]->0 as int)],
                ) by {
                    assert(ref_valid(s0, safe0[u]));
                    let i = index_at(s0, safe0[u]->0 as int);
                    assert(start_of(s0, i) == safe0[u]->0 as int);
                    lemma_obj_size_bound(s0, i);
                    assert(safe0[u] == Some(start_of(s0, i) as usize));
                    assert(rooted(s0, safe0, i));
                    lemma_reach_self(s1, i);
                    assert(reachable_from_grey(s1, i));
                    assert(is_black(s2[i]));
                    assert(same_but_shift(s2[i], s3[i]));
                    assert(index_at(s3, safe0[u]->0 as int) == i);
                }
            }
        }
        self.gc_update_refs();
        let ghost s4 = self.objs@;
        let ghost safe4 = self.refs.safe_refs@;
        self.gc_compact();
        proof {
            lemma_gc_glue(s0, safe0, s3, s4, safe4, self.objs@);
            assert(self.objs.free_offset == old(self).objs.free_offset - white_before(s4, n));
        }
    }
}

/// A slide distance never exceeds the offset of the object it moves (the
/// reachability-based account).
pub proof fn lemma_dead_before_le_start(s: Seq<HeapObject>, safe: Seq<Option<usize>>, i: int)
    requires
        0 <= i,
    ensures
        0 <= dead_before(s, safe, i) <= start_of(s, i),
        0 <= live_index(s, safe, i) <= i,
    decreases i,
{
    if 0 < i {
        lemma_dead_before_le_start(s, safe, i - 1);
    }
}

/// A path from the safe-handle table maps, node by node, onto a path of the
/// collected heap.
proof fn lemma_path_survives(
    s: Seq<HeapObject>,
    safe: Seq<Option<usize>>,
    t: Seq<HeapObject>,
    nsafe: Seq<Option<usize>>,
    p: Seq<int>,
)
    requires
        total_size(s) <= MEM_SIZE,
        forall|i: int| 0 <= i < s.len() ==> (#[trigger] s[i]).obj_wf(),
        all_refs_valid(s),
        forall|u: int| 0 <= u < safe.len() ==> ref_valid(s, #[trigger] safe[u]),
        gc_post(s, safe, t, nsafe),
        is_path(s, p),
        p.len() >= 1,
        rooted(s, safe, p[0]),
    ensures
        reachable(s, safe, p.last()),
        reachable(t, nsafe, live_index(s, safe, p.last())),
    decreases p.len(),
{
    if p.len() == 1 {
        let j = p[0];
        lemma_rooted_reachable(s, safe, j);
        let i2 = live_index(s, safe, j);
        let u = choose|u: int|
            0 <= u < safe.len() && (#[trigger] safe[u]) == Some(start_of(s, j) as usize);
        lemma_obj_size_bound(s, j);
        lemma_dead_before_le_start(s, safe, j);
        assert(nsafe[u] == gc_ref(s, safe, safe[u]));
        lemma_start_inj(s, j, index_at(s, start_of(s, j) as usize as int));
        assert(index_at(s, start_of(s, j) as usize as int) == j);
        assert(start_of(t, i2) == start_of(s, j) - dead_before(s, safe, j));
        assert(nsafe[u] == Some(start_of(t, i2) as usize));
        assert(rooted(t, nsafe, i2));
        lemma_rooted_reachable(t, nsafe, i2);
    } else {
        let q = p.drop_last();
        assert forall|k: int| 0 <= k < q.len() - 1 implies edge(s, #[trigger] q[k], q[k + 1]) by {
            assert(edge(s, p[k], p[k + 1]));
        }
        lemma_path_survives(s, safe, t, nsafe, q);
        let a = q.last();
        let b = p.last();
        assert(edge(s, p[p.len() - 2], p[p.len() - 1]));
        assert(a == p[p.len() - 2] && b == p[p.len() - 1]);
        // the endpoint is reachable in the old heap
        let pa = choose|pa: Seq<int>|
            {
                &&& pa.len() >= 1
                &&& rooted(s, safe, pa[0])
                &&& pa.last() == a
                &&& #[trigger] is_path(s, pa)
            };
        lemma_path_extend(s, pa, b);
        assert(reachable(s, safe, b));
        // the edge maps onto the collected heap
        let ia = live_index(s, safe, a);
        let ib = live_index(s, safe, b);
        let k = choose|k: int|
            0 <= k < s[a].refs@.len() && (#[trigger] s[a].refs@[k]) == Some(
                start_of(s, b) as usize,
            );
        lemma_obj_size_bound(s, b);
        lemma_dead_before_le_start(s, safe, b);
        lemma_start_inj(s, b, index_at(s, start_of(s, b) as usize as int));
        assert(t[ia].refs@[k] == gc_ref(s, safe, s[a].refs@[k]));
        assert(t[ia].refs@[k] == Some((start_of(s, b) - dead_before(s, safe, b)) as usize));
        assert(start_of(t, ib) == start_of(s, b) - dead_before(s, safe, b));
        assert(t[ia].refs@[k] == Some(start_of(t, ib) as usize));
        assert(edge(t, ia, ib));
        let pt = choose|pt: Seq<int>|
            {
                &&& pt.len() >= 1
                &&& rooted(t, nsafe, pt[0])
                &&& pt.last() == ia
                &&& #[trigger] is_path(t, pt)
            };
        lemma_path_extend(t, pt, ib);
        assert(reachable(t, nsafe, ib));
    }
}

/// Law: a collection preserves reachability. Every object the safe-handle
/// table reached before the collection survives it -- reachable again, from
/// the rewritten table, at its survivor index (with its fields intact, per
/// `gc_post`) -- and in the collected heap the table reaches every object:
/// the unreachable objects are gone, their words reclaimed.
pub proof fn lemma_gc_preserves_reachability(
    s: Seq<HeapObject>,
    safe: Seq<Option<usize>>,
    t: Seq<HeapObject>,
    nsafe: Seq<Option<usize>>,
)
    requires
        total_size(s) <= MEM_SIZE,
        forall|i: int| 0 <= i < s.len() ==> (#[trigger] s[i]).obj_wf(),
        all_refs_valid(s),
        forall|u: int| 0 <= u < safe.len() ==> ref_valid(s, #[trigger] safe[u]),
        gc_post(s, safe, t, nsafe),
    ensures
        forall|i: int|
            0 <= i < s.len() && #[trigger] reachable(s, safe, i) ==> reachable(
                t,
                nsafe,
                live_index(s, safe, i),
            ),
        forall|j: int| 0 <= j < t.len() ==> #[trigger] reachable(t, nsafe, j),
{
    assert forall|i: int| 0 <= i < s.len() && #[trigger] reachable(s, safe, i) implies reachable(
        t,
        nsafe,
        live_index(s, safe, i),
    ) by {
        let p = choose|p: Seq<int>|
            {
                &&& p.len() >= 1
                &&& rooted(s, safe, p[0])
                &&& p.last() == i
                &&& #[trigger] is_path(s, p)
            };
        lemma_path_survives(s, safe, t, nsafe, p);
    }
    assert forall|j: int| 0 <= j < t.len() implies #[trigger] reachable(t, nsafe, j) by {
        assert(live_image(s, safe, j));
        let i = choose|i: int|
            0 <= i < s.len() && #[trigger] reachable(s, safe, i) && live_index(s, safe, i) == j;
    }
}

/// Where the table reaches every object, nothing slides and every survivor
/// index is the object's own.
proof fn lemma_fully_reachable_identity(
    t: Seq<HeapObject>,
    nsafe: Seq<Option<usize>>,
    i: int,
)
    requires
        0 <= i <= t.len(),
        forall|j: int| 0 <= j < t.len() ==> #[trigger] reachable(t, nsafe, j),
    ensures
        dead_before(t, nsafe, i) == 0,
        live_index(t, nsafe, i) == i,
    decreases i,
{
    if 0 < i {
        lemma_fully_reachable_identity(t, nsafe, i - 1);
    }
}

/// Law: collections compose idempotently. Running a second collection with
/// the root set unchanged reclaims nothing: it keeps every object (same
/// count, same field counts, same int fields, same ref fields -- only the
/// mark fields, meaningless between collections, may differ) and leaves
/// every safe-handle slot as it was.
pub proof fn lemma_gc_idempotent(
    s: Seq<HeapObject>,
    safe: Seq<Option<usize>>,
    t: Seq<HeapObject>,
    nsafe: Seq<Option<usize>>,
    t2: Seq<HeapObject>,
    nsafe2: Seq<Option<usize>>,
)
    requires
        total_size(s) <= MEM_SIZE,
        forall|i: int| 0 <= i < s.len() ==> (#[trigger] s[i]).obj_wf(),
        all_refs_valid(s),
        forall|u: int| 0 <= u < safe.len() ==> ref_valid(s, #[trigger] safe[u]),
        gc_post(s, safe, t, nsafe),
        all_refs_valid(t),
        forall|u: int| 0 <= u < nsafe.len() ==> ref_valid(t, #[trigger] nsafe[u]),
        gc_post(t, nsafe, t2, nsafe2),
    ensures
        dead_before(t, nsafe, t.len() as int) == 0,
        t2.len() == t.len(),
        forall|i: int| 0 <= i < t.len() ==> same_but_marks(t[i], #[trigger] t2[i]),
        nsafe2 == nsafe,
{
    lemma_gc_preserves_reachability(s, safe, t, nsafe);
    assert forall|i: int| 0 <= i <= t.len() implies #[trigger] dead_before(t, nsafe, i) == 0
        && live_index(t, nsafe, i) == i by {
        lemma_fully_reachable_identity(t, nsafe, i);
    }
    assert(dead_before(t, nsafe, t.len() as int) == 0);
    assert(t2.len() == t.len());
    // a reference value survives the second collection unchanged
    assert forall|r: Option<usize>| ref_valid(t, r) implies #[trigger] gc_ref(t, nsafe, r)
        == r by {
        match r {
            None => {},
            Some(v) => {
                let c = index_at(t, v as int);
                assert(0 <= c < t.len() && start_of(t, c) == v as int);
                assert(dead_before(t, nsafe, c) == 0);
            },
        }
    }
    assert forall|i: int| 0 <= i < t.len() implies same_but_marks(t[i], #[trigger] t2[i]) by {
        assert(reachable(t, nsafe, i));
        assert(live_index(t, nsafe, i) == i);
        assert(t2[i].ints@ == t[i].ints@);
        assert forall|k: int| 0 <= k < t[i].refs@.len() implies #[trigger] t2[i].refs@[k] == t[
            i
        ].refs@[k] by {
            assert(t2[i].refs@[k] == gc_ref(t, nsafe, t[i].refs@[k]));
            assert(ref_valid(t, t[i].refs@[k]));
        }
        assert(t2[i].refs@ =~= t[i].refs@);
    }
    assert forall|u: int| 0 <= u < nsafe.len() implies #[trigger] nsafe2[u] == nsafe[u] by {
        assert(nsafe2[u] == gc_ref(t, nsafe, nsafe[u]));
        assert(ref_valid(t, nsafe[u]));
    }
    assert(nsafe2 =~= nsafe);
}

/// Law: in a well-formed heap -- as the heap after a collection is -- every
/// non-null ref slot of every object addresses the header of an object of
/// the heap; a collection leaves no dangling reference behind.
pub proof fn lemma_refs_address_objects(mem: HeapMemory)
    requires
        mem.wf(),
    ensures
        forall|i: int, k: int|
            0 <= i < mem@.len() && 0 <= k < mem@[i].refs@.len() && (#[trigger] mem@[i].refs@[k])
                is Some ==> is_obj_start(mem@, mem@[i].refs@[k]->0 as int),
{
    assert forall|i: int, k: int|
        0 <= i < mem@.len() && 0 <= k < mem@[i].refs@.len() && (#[trigger] mem@[i].refs@[k])
            is Some implies is_obj_start(mem@, mem@[i].refs@[k]->0 as int) by {
        assert(ref_valid(mem@, mem@[i].refs@[k]));
    }
}

} // verus!
