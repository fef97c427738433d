//! Mark-sweep collector over handle-addressed heap objects.
use vstd::prelude::*;
use crate::marshal::{decode_u64, le_value};
use crate::table::{check_layout, TypeTable};
use crate::type_info::HANDLE_SIZE;

verus! {

/// A handle to an object on the collected heap. It stays valid as long as the
/// object lives, whatever happens to the object's storage. A handle field of a
/// struct stores one more than the handle's index, so that a zeroed field refers
/// to no object.
#[derive(Clone, Copy, Debug, PartialEq, Eq, Hash, Structural)]
pub struct GcPtr {
    pub index: usize,
}

/// An object on the heap: the index of its type in the collector's table, its
/// bytes, and how many root handles hold it.
pub struct GcObject {
    pub ty: usize,
    pub data: Vec<u8>,
    pub roots: usize,
}

/// Lifecycle events that the collector reports to its observer.
#[derive(Clone, Copy, Debug, PartialEq, Eq, Structural)]
pub enum Event {
    Allocation(GcPtr),
    Start,
    Deallocation(GcPtr),
    End,
}

/// Receives the collector's lifecycle events.
pub trait Observer {
    fn event(&mut self, event: Event);
}

/// An observer that ignores every event.
pub struct NoopObserver;

impl Observer for NoopObserver {
    fn event(&mut self, event: Event) {
    }
}

/// A mark-sweep collector. A handle is the index of its object's slot; a slot is
/// never reused, so a handle names one object for the life of the collector.
pub struct MarkSweep<O: Observer> {
    pub types: TypeTable,
    pub objects: Vec<Option<GcObject>>,
    pub observer: O,
}

/// The number of `false` entries of `s`.
pub open spec fn count_unmarked(s: Seq<bool>) -> nat
    decreases s.len(),
{
    if s.len() == 0 {
        0
    } else {
        (if s.last() { 0nat } else { 1nat }) + count_unmarked(s.drop_last())
    }
}

proof fn lemma_count_unmarked_update(s: Seq<bool>, q: int)
    requires
        0 <= q < s.len(),
        !s[q],
    ensures
        count_unmarked(s.update(q, true)) + 1 == count_unmarked(s),
    decreases s.len(),
{
    let t = s.update(q, true);
    if q == s.len() - 1 {
        assert(t.drop_last() =~= s.drop_last());
    } else {
        assert(t.drop_last() =~= s.drop_last().update(q, true));
        lemma_count_unmarked_update(s.drop_last(), q);
    }
}

impl<O: Observer> MarkSweep<O> {
    pub open spec fn live(&self, i: int) -> bool {
        0 <= i < self.objects@.len() && self.objects@[i] is Some
    }

    pub open spec fn obj(&self, i: int) -> GcObject {
        self.objects@[i]->0
    }

    /// Every live object is tagged with a type of the table and has its size.
    pub open spec fn wf(&self) -> bool {
        &&& self.types.wf()
        &&& forall|i: int| #[trigger] self.live(i) ==> self.obj(i).ty < self.types@.len()
            && self.obj(i).data@.len() == self.types@[self.obj(i).ty as int].spec_size_in_bytes()
    }

    /// Field `f` of live object `i` holds a handle to a collected object.
    pub open spec fn gc_field(&self, i: int, f: int) -> bool {
        let t = self.types@[self.obj(i).ty as int];
        &&& self.live(i)
        &&& t.struct_info is Some
        &&& 0 <= f < t.field_count()
        &&& self.types@[t.field_type(f)].is_gc_struct()
    }

    /// The code stored in field `f` of object `i`: zero for no object, else one
    /// more than the index of the handle.
    pub open spec fn field_target(&self, i: int, f: int) -> nat {
        let t = self.types@[self.obj(i).ty as int];
        let off = t.field_offset(f) as int;
        le_value(self.obj(i).data@.subrange(off, off + HANDLE_SIZE))
    }

    /// Live object `p` refers to live object `q` through one of its fields.
    pub open spec fn edge(&self, p: int, q: int) -> bool {
        &&& self.live(q)
        &&& exists|f: int| #[trigger] self.gc_field(p, f) && self.field_target(p, f) == q + 1
    }

    /// Live object `i` is held by at least one root handle.
    pub open spec fn rooted(&self, i: int) -> bool {
        self.live(i) && self.obj(i).roots > 0
    }

    /// `s` is a path of the object graph that starts at a rooted object.
    pub open spec fn is_path(&self, s: Seq<int>) -> bool {
        &&& s.len() > 0
        &&& self.rooted(s[0])
        &&& forall|i: int| 0 <= i < s.len() - 1 ==> #[trigger] self.edge(s[i], s[i + 1])
    }

    /// Object `o` is reachable from the root set.
    pub open spec fn reachable(&self, o: int) -> bool {
        exists|s: Seq<int>| #[trigger] self.is_path(s) && s.last() == o
    }

    /// A set of objects that holds every rooted object and every object that one
    /// of its members refers to holds every object on a path from the roots.
    proof fn lemma_closed_holds_path(&self, marked: Seq<bool>, s: Seq<int>, i: int)
        requires
            marked.len() == self.objects@.len(),
            forall|k: int| 0 <= k < marked.len() && #[trigger] self.rooted(k) ==> marked[k],
            forall|p: int, q: int|
                0 <= p < marked.len() && marked[p] && #[trigger] self.edge(p, q) ==> marked[q],
            self.is_path(s),
            0 <= i < s.len(),
        ensures
            0 <= s[i] < marked.len() && marked[s[i]],
        decreases i,
    {
        if i == 0 {
            assert(self.rooted(s[0]));
        } else {
            self.lemma_closed_holds_path(marked, s, i - 1);
            let j = i - 1;
            assert(self.edge(s[j], s[j + 1]));
        }
    }

    /// `after` is what a collection makes of `before`: the reachable objects kept
    /// as they were, every other one reclaimed.
    pub open spec fn collected(before: Self, after: Self) -> bool {
        &&& after.types == before.types
        &&& after.objects@.len() == before.objects@.len()
        &&& forall|i: int| 0 <= i < before.objects@.len() && before.reachable(i)
            ==> #[trigger] after.objects@[i] == before.objects@[i]
        &&& forall|i: int| 0 <= i < before.objects@.len() && !before.reachable(i)
            ==> #[trigger] after.objects@[i] is None
    }

    /// Collecting a heap whose live objects are all reachable changes nothing: a
    /// second collection right after a first, with nothing allocated, rooted or
    /// released in between, leaves every object as it was.
    pub proof fn lemma_collect_settled(before: Self, after: Self)
        requires
            Self::collected(before, after),
            forall|i: int| #[trigger] before.live(i) ==> before.reachable(i),
        ensures
            after.objects@ == before.objects@,
            after.types == before.types,
    {
        assert forall|i: int| 0 <= i < before.objects@.len() implies after.objects@[i] == before.objects@[i] by {
            if before.live(i) {
                assert(before.reachable(i));
            } else {
                if before.reachable(i) {
                    let s = choose|s: Seq<int>| #[trigger] before.is_path(s) && s.last() == i;
                    if s.len() == 1 {
                        assert(before.rooted(s[0]));
                    } else {
                        let m = s.len() - 2;
                        assert(before.edge(s[m], s[m + 1]));
                        assert(s[m + 1] == i);
                    }
                }
                assert(after.objects@[i] is None);
                assert(before.objects@[i] is None);
            }
        }
        assert(after.objects@ =~= before.objects@);
    }

    /// A path whose objects all survive unchanged stays a path.
    proof fn lemma_path_kept(&self, after: Self, s: Seq<int>)
        requires
            self.is_path(s),
            after.types == self.types,
            after.objects@.len() == self.objects@.len(),
            forall|k: int| 0 <= k < self.objects@.len() && self.reachable(k)
                ==> #[trigger] after.objects@[k] == self.objects@[k],
        ensures
            after.is_path(s),
    {
        assert forall|j: int| 0 <= j < s.len() implies self.live(s[j]) && after.objects@[s[j]] == self.objects@[s[j]] by {
            let t = s.subrange(0, j + 1);
            assert forall|m: int| 0 <= m < t.len() - 1 implies #[trigger] self.edge(t[m], t[m + 1]) by {
                assert(t[m] == s[m] && t[m + 1] == s[m + 1]);
            }
            assert(self.is_path(t) && t.last() == s[j]);
            if j == 0 {
                assert(self.rooted(s[0]));
            } else {
                let m = j - 1;
                assert(self.edge(s[m], s[m + 1]));
            }
        }
        assert(after.rooted(s[0]));
        assert forall|m: int| 0 <= m < s.len() - 1 implies #[trigger] after.edge(s[m], s[m + 1]) by {
            assert(self.edge(s[m], s[m + 1]));
            let f = choose|f: int| #[trigger] self.gc_field(s[m], f) && self.field_target(s[m], f) == s[m + 1] + 1;
            assert(after.gc_field(s[m], f) && after.field_target(s[m], f) == s[m + 1] + 1);
        }
    }

    /// Reclaims every object that is not reachable from the roots, and keeps every
    /// reachable one as it is.
    pub fn collect(&mut self)
        requires
            old(self).wf(),
        ensures
            final(self).wf(),
            final(self).types == old(self).types,
            final(self).objects@.len() == old(self).objects@.len(),
            forall|i: int|
                0 <= i < old(self).objects@.len() && old(self).reachable(i)
                    ==> #[trigger] final(self).objects@[i] == old(self).objects@[i],
            forall|i: int|
                0 <= i < old(self).objects@.len() && !old(self).reachable(i)
                    ==> #[trigger] final(self).objects@[i] is None,
            forall|i: int| #[trigger] final(self).live(i) ==> final(self).reachable(i),
            Self::collected(*old(self), *final(self)),
    {
        let ghost h = *self;
        let n = self.objects.len();
        let mut marked: Vec<bool> = Vec::new();
        let mut stack: Vec<usize> = Vec::new();
        let mut i: usize = 0;
        while i < n
            invariant
                h == *self,
                h.wf(),
                n == h.objects@.len(),
                0 <= i <= n,
                marked@.len() == i,
                forall|k: int| 0 <= k < i ==> marked@[k] == h.rooted(k),
                forall|a: int| 0 <= a < stack@.len() ==> stack@[a] < i && marked@[stack@[a] as int],
                forall|a: int, b: int| 0 <= a < b < stack@.len() ==> stack@[a] != stack@[b],
                forall|k: int| 0 <= k < i && marked@[k] ==> #[trigger] stack@.contains(k as usize),
            decreases n - i,
        {
            let r = match &self.objects[i] {
                Some(o) => o.roots > 0,
                None => false,
            };
            let ghost m0 = marked@;
            let ghost s0 = stack@;
            marked.push(r);
            if r {
                stack.push(i);
            }
            proof {
                assert(marked@[i as int] == r);
                assert forall|k: int| 0 <= k < i implies marked@[k] == m0[k] by {}
                assert forall|a: int| 0 <= a < stack@.len() implies stack@[a] < i + 1 && marked@[stack@[a] as int] by {
                    if a < s0.len() {
                        assert(stack@[a] == s0[a]);
                        assert(m0[s0[a] as int]);
                    } else {
                        assert(stack@[a] == i);
                    }
                }
                assert forall|a: int, b: int| 0 <= a < b < stack@.len() implies stack@[a] != stack@[b] by {
                    if b >= s0.len() {
                        assert(stack@[a] == s0[a]);
                        assert(stack@[b] == i);
                        assert(m0[s0[a] as int]);
                    } else {
                        assert(stack@[a] == s0[a] && stack@[b] == s0[b]);
                    }
                }
                assert forall|k: int| 0 <= k < i + 1 && marked@[k] implies #[trigger] stack@.contains(k as usize) by {
                    if k < i {
                        assert(m0[k]);
                        assert(s0.contains(k as usize));
                        let a = choose|a: int| 0 <= a < s0.len() && s0[a] == k as usize;
                        assert(stack@[a] == s0[a]);
                    } else {
                        assert(stack@[stack@.len() - 1] == i);
                    }
                }
            }
            i = i + 1;
        }
        proof {
            assert forall|k: int| 0 <= k < n && marked@[k] implies h.reachable(k) by {
                assert(h.is_path(seq![k]));
                assert(seq![k].last() == k);
            }
        }
        while stack.len() > 0
            invariant
                h == *self,
                h.wf(),
                n == h.objects@.len(),
                marked@.len() == n,
                forall|k: int| 0 <= k < n && marked@[k] ==> h.live(k),
                forall|k: int| 0 <= k < n && #[trigger] h.rooted(k) ==> marked@[k],
                forall|a: int| 0 <= a < stack@.len() ==> stack@[a] < n && marked@[stack@[a] as int],
                forall|a: int, b: int| 0 <= a < b < stack@.len() ==> stack@[a] != stack@[b],
                forall|p: int, q: int|
                    0 <= p < n && marked@[p] && !stack@.contains(p as usize) && #[trigger] h.edge(p, q)
                        ==> marked@[q],
                forall|k: int| 0 <= k < n && marked@[k] ==> #[trigger] h.reachable(k),
            decreases count_unmarked(marked@), stack@.len(),
        {
            let ghost stack0 = stack@;
            let ghost count0 = count_unmarked(marked@);
            let p = stack.pop().unwrap();
            assert(stack0[stack0.len() - 1] == p);
            assert(marked@[p as int]);
            proof {
                assert forall|a: int| 0 <= a < stack@.len() implies stack@[a] != p by {
                    assert(stack@[a] == stack0[a]);
                }
                assert forall|a: int| 0 <= a < stack@.len() implies stack@[a] < n && marked@[stack@[a] as int] by {
                    assert(stack@[a] == stack0[a]);
                    assert(marked@[stack0[a] as int]);
                }
                assert forall|a: int, b: int| 0 <= a < b < stack@.len() implies stack@[a] != stack@[b] by {
                    assert(stack@[a] == stack0[a] && stack@[b] == stack0[b]);
                }
                assert forall|p2: int, q: int|
                    0 <= p2 < n && p2 != p && marked@[p2] && !stack@.contains(p2 as usize)
                        && #[trigger] h.edge(p2, q) implies marked@[q] by {
                    assert(!stack0.contains(p2 as usize)) by {
                        if stack0.contains(p2 as usize) {
                            let a = choose|a: int| 0 <= a < stack0.len() && stack0[a] == p2 as usize;
                            if a < stack@.len() {
                                assert(stack@[a] == stack0[a]);
                            }
                        }
                    }
                }
            }
            let o = self.objects[p].as_ref().unwrap();
            let t = self.types.get(o.ty);
            assert(h.types@[o.ty as int].layout_wf(h.types@));
            let mut pushes: usize = 0;
            if let Some(s) = &t.struct_info {
                let nf = s.field_types.len();
                let mut f: usize = 0;
                while f < nf
                    invariant
                        h == *self,
                        h.wf(),
                        n == h.objects@.len(),
                        h.live(p as int),
                        *o == h.obj(p as int),
                        *t == h.types@[o.ty as int],
                        t.layout_wf(h.types@),
                        t.struct_info == Some(*s),
                        nf == t.field_count(),
                        0 <= f <= nf,
                        marked@.len() == n,
                        marked@[p as int],
                        !stack@.contains(p),
                        pushes <= f,
                        count_unmarked(marked@) + pushes == count0,
                        stack@.len() + 1 == stack0.len() + pushes,
                        forall|k: int| 0 <= k < n && marked@[k] ==> h.live(k),
                        forall|k: int| 0 <= k < n && #[trigger] h.rooted(k) ==> marked@[k],
                        forall|a: int| 0 <= a < stack@.len() ==> stack@[a] < n && marked@[stack@[a] as int],
                        forall|a: int, b: int| 0 <= a < b < stack@.len() ==> stack@[a] != stack@[b],
                        forall|p2: int, q: int|
                            0 <= p2 < n && p2 != p && marked@[p2] && !stack@.contains(p2 as usize)
                                && #[trigger] h.edge(p2, q) ==> marked@[q],
                        forall|k: int| 0 <= k < n && marked@[k] ==> #[trigger] h.reachable(k),
                        forall|f2: int|
                            0 <= f2 < f && #[trigger] h.gc_field(p as int, f2) && h.field_target(p as int, f2) > 0
                                && h.live(h.field_target(p as int, f2) - 1)
                                ==> marked@[h.field_target(p as int, f2) - 1],
                    decreases nf - f,
                {
                    assert(t.field_placed(h.types@, f as int));
                    let ft = self.types.get(s.field_types[f]);
                    if ft.is_gc_reference() {
                        let off = s.field_offsets[f] as usize;
                        let target = decode_u64(o.data.as_slice(), off);
                        assert(target == h.field_target(p as int, f as int));
                        if target > 0 && target - 1 < n as u64 {
                            let q = (target - 1) as usize;
                            if self.objects[q].is_some() && !marked[q] {
                                proof {
                                    assert(h.gc_field(p as int, f as int));
                                    assert(h.edge(p as int, q as int));
                                    assert(h.reachable(p as int));
                                    let sp = choose|sp: Seq<int>| #[trigger] h.is_path(sp) && sp.last() == p as int;
                                    let sq = sp.push(q as int);
                                    assert forall|i: int| 0 <= i < sq.len() - 1 implies #[trigger] h.edge(sq[i], sq[i + 1]) by {
                                        if i < sp.len() - 1 {
                                            assert(h.edge(sp[i], sp[i + 1]));
                                        }
                                    }
                                    assert(h.is_path(sq) && sq.last() == q as int);
                                    lemma_count_unmarked_update(marked@, q as int);
                                }
                                let ghost stack1 = stack@;
                                let ghost m1 = marked@;
                                marked.set(q, true);
                                stack.push(q);
                                proof {
                                    assert forall|a: int| 0 <= a < stack@.len() implies stack@[a] < n && marked@[stack@[a] as int] by {
                                        if a < stack1.len() {
                                            assert(stack@[a] == stack1[a]);
                                            assert(m1[stack1[a] as int]);
                                        }
                                    }
                                    assert forall|a: int, b: int| 0 <= a < b < stack@.len() implies stack@[a] != stack@[b] by {
                                        if b == stack1.len() {
                                            assert(marked@[stack1[a] as int]);
                                        } else {
                                            assert(stack@[a] == stack1[a]);
                                        }
                                    }
                                    assert(stack@[stack@.len() - 1] == q);
                                    assert forall|a: int| 0 <= a < stack@.len() implies stack@[a] != p by {
                                        if a < stack1.len() {
                                            assert(stack@[a] == stack1[a]);
                                        }
                                    }
                                    assert forall|p2: int, q2: int|
                                        0 <= p2 < n && p2 != p && marked@[p2] && !stack@.contains(p2 as usize)
                                            && #[trigger] h.edge(p2, q2) implies marked@[q2] by {
                                        if p2 != q {
                                            assert(!stack1.contains(p2 as usize)) by {
                                                if stack1.contains(p2 as usize) {
                                                    let a = choose|a: int| 0 <= a < stack1.len() && stack1[a] == p2 as usize;
                                                    assert(stack@[a] == stack1[a]);
                                                }
                                            }
                                        } else {
                                            assert(stack@.contains(q));
                                        }
                                    }
                                }
                                pushes = pushes + 1;
                            }
                        }
                    }
                    f = f + 1;
                }
                proof {
                    assert forall|q: int| #[trigger] h.edge(p as int, q) implies marked@[q] by {
                        let f2 = choose|f2: int| #[trigger] h.gc_field(p as int, f2) && h.field_target(p as int, f2) == q + 1;
                    }
                }
            }
            proof {
                assert forall|p2: int, q: int|
                    0 <= p2 < n && marked@[p2] && !stack@.contains(p2 as usize) && #[trigger] h.edge(p2, q)
                        implies marked@[q] by {
                    if p2 == p as int && t.struct_info is None {
                        let f2 = choose|f2: int| #[trigger] h.gc_field(p as int, f2) && h.field_target(p as int, f2) == q + 1;
                    }
                }
            }
        }
        proof {
            assert forall|k: int| 0 <= k < n && h.reachable(k) implies marked@[k] by {
                let sk = choose|sk: Seq<int>| #[trigger] h.is_path(sk) && sk.last() == k;
                h.lemma_closed_holds_path(marked@, sk, sk.len() - 1);
            }
        }
        self.observer.event(Event::Start);
        let mut i: usize = 0;
        while i < n
            invariant
                h.wf(),
                self.types == h.types,
                n == h.objects@.len(),
                self.objects@.len() == n,
                marked@.len() == n,
                0 <= i <= n,
                forall|k: int| 0 <= k < n && marked@[k] ==> h.live(k),
                forall|k: int| 0 <= k < n && h.reachable(k) ==> marked@[k],
                forall|k: int| 0 <= k < n && marked@[k] ==> #[trigger] h.reachable(k),
                forall|k: int| 0 <= k < i ==> #[trigger] self.objects@[k] == (if marked@[k] { h.objects@[k] } else { None }),
                forall|k: int| i <= k < n ==> #[trigger] self.objects@[k] == h.objects@[k],
            decreases n - i,
        {
            if self.objects[i].is_some() && !marked[i] {
                self.objects.set(i, None);
                self.observer.event(Event::Deallocation(GcPtr { index: i }));
            }
            i = i + 1;
        }
        self.observer.event(Event::End);
        proof {
            assert forall|i: int| #[trigger] self.live(i) implies self.reachable(i) by {
                assert(h.reachable(i));
                let sp = choose|sp: Seq<int>| #[trigger] h.is_path(sp) && sp.last() == i;
                h.lemma_path_kept(*self, sp);
            }
        }
        assert forall|k: int| #[trigger] self.live(k) implies self.obj(k).ty < self.types@.len()
            && self.obj(k).data@.len() == self.types@[self.obj(k).ty as int].spec_size_in_bytes() by {
            assert(h.live(k));
        }
    }

    /// Creates an empty heap over the type table `types`.
    pub fn new(types: TypeTable, observer: O) -> (r: Self)
        requires
            types.wf(),
        ensures
            r.wf(),
            r.types == types,
            r.objects@.len() == 0,
    {
        MarkSweep { types, objects: Vec::new(), observer }
    }

    /// Allocates a zeroed object of type `ty`, held by no root.
    pub fn allocate(&mut self, ty: usize) -> (r: GcPtr)
        requires
            old(self).wf(),
            ty < old(self).types@.len(),
        ensures
            final(self).wf(),
            final(self).types == old(self).types,
            r.index == old(self).objects@.len(),
            final(self).objects@.len() == old(self).objects@.len() + 1,
            forall|i: int| 0 <= i < old(self).objects@.len() ==> #[trigger] final(self).objects@[i] == old(self).objects@[i],
            final(self).live(r.index as int),
            final(self).obj(r.index as int).ty == ty,
            final(self).obj(r.index as int).roots == 0,
            final(self).obj(r.index as int).data@ == Seq::new(
                old(self).types@[ty as int].spec_size_in_bytes(),
                |i: int| 0u8,
            ),
    {
        let size = self.types.get(ty).size_in_bytes();
        let mut data: Vec<u8> = Vec::new();
        let mut i: usize = 0;
        while i < size
            invariant
                0 <= i <= size,
                data@ == Seq::new(i as nat, |k: int| 0u8),
            decreases size - i,
        {
            data.push(0);
            i = i + 1;
            assert(data@ =~= Seq::new(i as nat, |k: int| 0u8));
        }
        let index = self.objects.len();
        self.objects.push(Some(GcObject { ty, data, roots: 0 }));
        let r = GcPtr { index };
        self.observer.event(Event::Allocation(r));
        assert forall|i: int| #[trigger] self.live(i) implies self.obj(i).ty < self.types@.len()
            && self.obj(i).data@.len() == self.types@[self.obj(i).ty as int].spec_size_in_bytes() by {
            if i < index {
                assert(old(self).live(i));
            }
        }
        r
    }

    /// Returns the index of the type of the object that `p` names.
    pub fn ptr_type(&self, p: GcPtr) -> (r: usize)
        requires
            self.wf(),
            self.live(p.index as int),
        ensures
            r == self.obj(p.index as int).ty,
            r < self.types@.len(),
    {
        self.objects[p.index].as_ref().unwrap().ty
    }

    /// Returns whether the heap is well formed: every descriptor consistent with
    /// the table, every live object tagged with a type of the table and sized by it.
    pub fn check_wf(&self) -> (r: bool)
        ensures
            r == self.wf(),
    {
        let nt = self.types.types.len();
        let mut i: usize = 0;
        while i < nt
            invariant
                nt == self.types@.len(),
                0 <= i <= nt,
                forall|k: int| 0 <= k < i ==> #[trigger] self.types@[k].layout_wf(self.types@),
            decreases nt - i,
        {
            if !check_layout(&self.types.types, &self.types.types[i]) {
                return false;
            }
            i = i + 1;
        }
        let n = self.objects.len();
        let mut j: usize = 0;
        while j < n
            invariant
                self.types.wf(),
                nt == self.types@.len(),
                n == self.objects@.len(),
                0 <= j <= n,
                forall|k: int| 0 <= k < j && #[trigger] self.live(k) ==> self.obj(k).ty < self.types@.len()
                    && self.obj(k).data@.len() == self.types@[self.obj(k).ty as int].spec_size_in_bytes(),
            decreases n - j,
        {
            match &self.objects[j] {
                None => {},
                Some(o) => {
                    if o.ty >= nt || o.data.len() != self.types.types[o.ty].size_in_bytes() {
                        assert(self.live(j as int));
                        return false;
                    }
                },
            }
            j = j + 1;
        }
        true
    }

    /// Returns whether `p` names a live object.
    pub fn is_live(&self, p: GcPtr) -> (r: bool)
        ensures
            r == self.live(p.index as int),
    {
        p.index < self.objects.len() && self.objects[p.index].is_some()
    }

    /// Returns `len` bytes of the object that `p` names, starting at `offset`.
    pub fn read_bytes(&self, p: GcPtr, offset: usize, len: usize) -> (r: Vec<u8>)
        requires
            self.live(p.index as int),
            offset + len <= self.obj(p.index as int).data@.len(),
        ensures
            r@ == self.obj(p.index as int).data@.subrange(offset as int, offset + len),
    {
        let o = self.objects[p.index].as_ref().unwrap();
        let dl = o.data.len();
        let mut r: Vec<u8> = Vec::new();
        let mut k: usize = 0;
        while k < len
            invariant
                *o == self.obj(p.index as int),
                dl == o.data@.len(),
                offset + len <= o.data@.len(),
                0 <= k <= len,
                r@ == o.data@.subrange(offset as int, offset + k),
            decreases len - k,
        {
            r.push(o.data[offset + k]);
            k = k + 1;
            assert(r@ =~= o.data@.subrange(offset as int, offset + k));
        }
        r
    }

    /// Overwrites the bytes of the object that `p` names from `offset` on with `bytes`.
    pub fn write_bytes(&mut self, p: GcPtr, offset: usize, bytes: &[u8])
        requires
            old(self).wf(),
            old(self).live(p.index as int),
            offset + bytes@.len() <= old(self).obj(p.index as int).data@.len(),
        ensures
            final(self).wf(),
            final(self).types == old(self).types,
            final(self).objects@.len() == old(self).objects@.len(),
            forall|i: int| 0 <= i < old(self).objects@.len() && i != p.index ==> #[trigger] final(self).objects@[i] == old(self).objects@[i],
            final(self).live(p.index as int),
            final(self).obj(p.index as int).ty == old(self).obj(p.index as int).ty,
            final(self).obj(p.index as int).roots == old(self).obj(p.index as int).roots,
            final(self).obj(p.index as int).data@ == old(self).obj(p.index as int).data@.subrange(0, offset as int)
                + bytes@ + old(self).obj(p.index as int).data@.subrange(
                offset + bytes@.len(),
                old(self).obj(p.index as int).data@.len() as int,
            ),
    {
        let ghost d0 = self.obj(p.index as int).data@;
        let ghost t0 = self.obj(p.index as int).ty;
        let ghost r0 = self.obj(p.index as int).roots;
        let n = bytes.len();
        match &mut self.objects[p.index] {
            Some(o) => {
                let dl = o.data.len();
                let mut k: usize = 0;
                while k < n
                    invariant
                        n == bytes@.len(),
                        dl == o.data@.len(),
                        o.ty == t0,
                        o.roots == r0,
                        o.data@.len() == d0.len(),
                        offset + n <= d0.len(),
                        0 <= k <= n,
                        forall|q: int| 0 <= q < d0.len() ==> #[trigger] o.data@[q] == if offset <= q < offset + k {
                            bytes@[q - offset]
                        } else {
                            d0[q]
                        },
                    decreases n - k,
                {
                    o.data.set(offset + k, bytes[k]);
                    k = k + 1;
                }
                assert(o.data@ =~= d0.subrange(0, offset as int) + bytes@ + d0.subrange(offset + n, d0.len() as int));
            },
            None => {},
        }
        assert forall|i: int| #[trigger] self.live(i) implies self.obj(i).ty < self.types@.len()
            && self.obj(i).data@.len() == self.types@[self.obj(i).ty as int].spec_size_in_bytes() by {
            assert(old(self).live(i));
        }
    }

    /// Gives the object that `p` names the type `ty` and the bytes `data`, keeping
    /// its handle and its roots.
    pub fn retag(&mut self, p: GcPtr, ty: usize, data: Vec<u8>)
        requires
            old(self).wf(),
            old(self).live(p.index as int),
            ty < old(self).types@.len(),
            data@.len() == old(self).types@[ty as int].spec_size_in_bytes(),
        ensures
            final(self).wf(),
            final(self).types == old(self).types,
            final(self).objects@.len() == old(self).objects@.len(),
            forall|i: int| 0 <= i < old(self).objects@.len() && i != p.index ==> #[trigger] final(self).objects@[i] == old(self).objects@[i],
            final(self).live(p.index as int),
            final(self).obj(p.index as int).ty == ty,
            final(self).obj(p.index as int).data == data,
            final(self).obj(p.index as int).roots == old(self).obj(p.index as int).roots,
    {
        let roots = self.objects[p.index].as_ref().unwrap().roots;
        self.objects.set(p.index, Some(GcObject { ty, data, roots }));
        assert forall|i: int| #[trigger] self.live(i) implies self.obj(i).ty < self.types@.len()
            && self.obj(i).data@.len() == self.types@[self.obj(i).ty as int].spec_size_in_bytes() by {
            if i != p.index {
                assert(old(self).live(i));
            }
        }
    }

    /// Registers one more root handle for the object that `p` names.
    pub fn root(&mut self, p: GcPtr)
        requires
            old(self).wf(),
            old(self).live(p.index as int),
            old(self).obj(p.index as int).roots < usize::MAX,
        ensures
            final(self).wf(),
            final(self).types == old(self).types,
            final(self).objects@.len() == old(self).objects@.len(),
            forall|i: int| 0 <= i < old(self).objects@.len() && i != p.index ==> #[trigger] final(self).objects@[i] == old(self).objects@[i],
            final(self).live(p.index as int),
            final(self).obj(p.index as int).ty == old(self).obj(p.index as int).ty,
            final(self).obj(p.index as int).data == old(self).obj(p.index as int).data,
            final(self).obj(p.index as int).roots == old(self).obj(p.index as int).roots + 1,
    {
        match &mut self.objects[p.index] {
            Some(o) => {
                o.roots = o.roots + 1;
            },
            None => {},
        }
        assert forall|i: int| #[trigger] self.live(i) implies self.obj(i).ty < self.types@.len()
            && self.obj(i).data@.len() == self.types@[self.obj(i).ty as int].spec_size_in_bytes() by {
            assert(old(self).live(i));
        }
    }

    /// Removes one root handle of the object that `p` names.
    pub fn unroot(&mut self, p: GcPtr)
        requires
            old(self).wf(),
            old(self).live(p.index as int),
            old(self).obj(p.index as int).roots > 0,
        ensures
            final(self).wf(),
            final(self).types == old(self).types,
            final(self).objects@.len() == old(self).objects@.len(),
            forall|i: int| 0 <= i < old(self).objects@.len() && i != p.index ==> #[trigger] final(self).objects@[i] == old(self).objects@[i],
            final(self).live(p.index as int),
            final(self).obj(p.index as int).ty == old(self).obj(p.index as int).ty,
            final(self).obj(p.index as int).data == old(self).obj(p.index as int).data,
            final(self).obj(p.index as int).roots == old(self).obj(p.index as int).roots - 1,
    {
        match &mut self.objects[p.index] {
            Some(o) => {
                o.roots = o.roots - 1;
            },
            None => {},
        }
        assert forall|i: int| #[trigger] self.live(i) implies self.obj(i).ty < self.types@.len()
            && self.obj(i).data@.len() == self.types@[self.obj(i).ty as int].spec_size_in_bytes() by {
            assert(old(self).live(i));
        }
    }
}

} // verus!
