//! Hot reload: superseding a type's descriptor and migrating its live instances.
use vstd::prelude::*;
use crate::diff::{apply, diff, diffable, is_migration};
use crate::gc::{GcPtr, MarkSweep, Observer};
use crate::table::{check_layout, TypeTable};
use crate::type_info::TypeInfo;

verus! {

/// Rewrites every live object of type `from` as an object of type `to`, by the
/// plan between the two layouts. Every handle keeps naming the same object.
pub fn migrate<O: Observer>(gc: &mut MarkSweep<O>, from: usize, to: usize)
    requires
        old(gc).wf(),
        from < old(gc).types@.len(),
        to < old(gc).types@.len(),
        diffable(old(gc).types@, old(gc).types@[from as int], old(gc).types@[to as int]),
    ensures
        final(gc).wf(),
        final(gc).types == old(gc).types,
        final(gc).objects@.len() == old(gc).objects@.len(),
        forall|i: int| 0 <= i < old(gc).objects@.len() && !(old(gc).live(i) && old(gc).obj(i).ty == from)
            ==> #[trigger] final(gc).objects@[i] == old(gc).objects@[i],
        forall|i: int| 0 <= i < old(gc).objects@.len() && #[trigger] old(gc).live(i) && old(gc).obj(i).ty == from ==> {
            &&& final(gc).live(i)
            &&& final(gc).obj(i).ty == to
            &&& final(gc).obj(i).roots == old(gc).obj(i).roots
            &&& is_migration(
                old(gc).types@,
                old(gc).types@[from as int],
                old(gc).types@[to as int],
                old(gc).obj(i).data@,
                final(gc).obj(i).data@,
            )
        },
{
    let ghost g0 = *gc;
    let plan = diff(&gc.types, gc.types.get(from), gc.types.get(to));
    let size = gc.types.get(to).size_in_bytes();
    let n = gc.objects.len();
    let mut i: usize = 0;
    while i < n
        invariant
            gc.wf(),
            g0.wf(),
            gc.types == g0.types,
            n == g0.objects@.len(),
            gc.objects@.len() == n,
            from < g0.types@.len(),
            to < g0.types@.len(),
            size == g0.types@[to as int].spec_size_in_bytes(),
            diffable(g0.types@, g0.types@[from as int], g0.types@[to as int]),
            crate::diff::is_diff(g0.types@, g0.types@[from as int], g0.types@[to as int], plan@),
            0 <= i <= n,
            forall|k: int| i <= k < n ==> #[trigger] gc.objects@[k] == g0.objects@[k],
            forall|k: int| 0 <= k < i && !(g0.live(k) && g0.obj(k).ty == from)
                ==> #[trigger] gc.objects@[k] == g0.objects@[k],
            forall|k: int| 0 <= k < i && #[trigger] g0.live(k) && g0.obj(k).ty == from ==> {
                &&& gc.live(k)
                &&& gc.obj(k).ty == to
                &&& gc.obj(k).roots == g0.obj(k).roots
                &&& is_migration(g0.types@, g0.types@[from as int], g0.types@[to as int], g0.obj(k).data@, gc.obj(k).data@)
            },
        decreases n - i,
    {
        let hit = match &gc.objects[i] {
            Some(o) => o.ty == from,
            None => false,
        };
        if hit {
            let mut buffer: Vec<u8> = Vec::new();
            let mut k: usize = 0;
            while k < size
                invariant
                    buffer@.len() == k,
                    k <= size,
                decreases size - k,
            {
                buffer.push(0);
                k = k + 1;
            }
            assert(g0.live(i as int));
            {
                let o = gc.objects[i].as_ref().unwrap();
                apply(&gc.types, plan.as_slice(), gc.types.get(from), gc.types.get(to), o.data.as_slice(), &mut buffer);
            }
            let ghost before = *gc;
            gc.retag(GcPtr { index: i }, to, buffer);
            proof {
                assert forall|k: int| 0 <= k < i + 1 && #[trigger] g0.live(k) && g0.obj(k).ty == from implies {
                    &&& gc.live(k)
                    &&& gc.obj(k).ty == to
                    &&& gc.obj(k).roots == g0.obj(k).roots
                    &&& is_migration(g0.types@, g0.types@[from as int], g0.types@[to as int], g0.obj(k).data@, gc.obj(k).data@)
                } by {
                    if k < i {
                        assert(before.live(k));
                        assert(gc.objects@[k] == before.objects@[k]);
                    }
                }
            }
        }
        i = i + 1;
    }
}

/// Why a reload was refused.
#[derive(Debug)]
pub enum ReloadError {
    /// The new descriptor is inconsistent with the type table.
    MigrationFailure { struct_name: String, reason: String },
}

/// Adds `new_type` to the collector's table, superseding the descriptor of the same
/// name, and migrates every live instance of that descriptor when both are structs.
/// Returns the index of the new descriptor.
pub fn reload_type<O: Observer>(gc: &mut MarkSweep<O>, new_type: TypeInfo) -> (r: Result<usize, ReloadError>)
    requires
        old(gc).wf(),
    ensures
        final(gc).wf(),
        r is Err <==> !new_type.layout_wf(old(gc).types@),
        r is Err ==> *final(gc) == *old(gc),
        r matches Ok(t) ==> t == old(gc).types@.len() && final(gc).types@ == old(gc).types@.push(new_type),
        final(gc).objects@.len() == old(gc).objects@.len(),
        r is Ok ==> forall|i: int| 0 <= i < old(gc).objects@.len() && #[trigger] old(gc).live(i) ==> {
            let from = old(gc).obj(i).ty as int;
            let ot = old(gc).types@[from];
            if ot.name@ == new_type.name@ && ot.struct_info is Some && new_type.struct_info is Some
                && (forall|k: int| from < k < old(gc).types@.len() ==> #[trigger] old(gc).types@[k].name@ != new_type.name@) {
                &&& final(gc).live(i)
                &&& final(gc).obj(i).ty == old(gc).types@.len()
                &&& final(gc).obj(i).roots == old(gc).obj(i).roots
                &&& is_migration(final(gc).types@, ot, new_type, old(gc).obj(i).data@, final(gc).obj(i).data@)
            } else {
                final(gc).objects@[i] == old(gc).objects@[i]
            }
        },
        r is Ok ==> forall|i: int| 0 <= i < old(gc).objects@.len() && !old(gc).live(i)
            ==> #[trigger] final(gc).objects@[i] == old(gc).objects@[i],
{
    if !check_layout(&gc.types.types, &new_type) {
        return Err(ReloadError::MigrationFailure {
            struct_name: new_type.name().to_owned(),
            reason: "inconsistent layout".to_owned(),
        });
    }
    let previous = gc.types.find(new_type.name());
    let is_struct = new_type.struct_info.is_some();
    let ghost g0 = *gc;
    let ghost nt = new_type;
    let to = gc.types.add(new_type).unwrap();
    proof {
        assert forall|i: int| #[trigger] gc.live(i) implies gc.obj(i).ty < gc.types@.len()
            && gc.obj(i).data@.len() == gc.types@[gc.obj(i).ty as int].spec_size_in_bytes() by {
            assert(g0.live(i));
        }
    }
    let ghost g1 = *gc;
    match previous {
        Some(from) => {
            if is_struct && gc.types.get(from).struct_info.is_some() {
                assert(gc.types@[from as int].layout_wf(gc.types@));
                assert(gc.types@[to as int].layout_wf(gc.types@));
                migrate(gc, from, to);
                proof {
                    assert forall|i: int| 0 <= i < g0.objects@.len() && #[trigger] g0.live(i) implies {
                        let from2 = g0.obj(i).ty as int;
                        let ot = g0.types@[from2];
                        if ot.name@ == nt.name@ && ot.struct_info is Some && nt.struct_info is Some
                            && (forall|k: int| from2 < k < g0.types@.len() ==> #[trigger] g0.types@[k].name@ != nt.name@) {
                            &&& gc.live(i)
                            &&& gc.obj(i).ty == g0.types@.len()
                            &&& gc.obj(i).roots == g0.obj(i).roots
                            &&& is_migration(gc.types@, ot, nt, g0.obj(i).data@, gc.obj(i).data@)
                        } else {
                            gc.objects@[i] == g0.objects@[i]
                        }
                    } by {
                        let from2 = g0.obj(i).ty as int;
                        assert(g1.live(i));
                        if g0.types@[from2].name@ == nt.name@ && (forall|k: int| from2 < k < g0.types@.len() ==> #[trigger] g0.types@[k].name@ != nt.name@) {
                            if from2 < from {
                                assert(g0.types@[from as int].name@ == nt.name@);
                            }
                            if from2 > from {
                                assert(g0.types@[from2].name@ != nt.name@);
                            }
                        }
                    }
                }
            }
        },
        None => {},
    }
    Ok(to)
}

} // verus!
