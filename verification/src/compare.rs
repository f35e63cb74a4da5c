use vstd::prelude::*;
use crate::patch::{Patch, PatchOp, SpecPatch, lemma_patches_push, patches_view};
use crate::paths::{child_path, dec_str, index_path, key_path, replace_path, whole_path};
use crate::value::{
    SpecVal, Value, arr_view, arrays_eq, deep_eq, has_key, keys_unique, lemma_arr_view,
    lemma_lookup_unique, lemma_obj_view, lemma_wf_pairs, lemma_wf_seq, lookup, obj_view, val_view,
    value_clone, wf, wf_pairs, wf_seq,
};

verus! {

/// The full difference of two documents: the ordered patch list that
/// comparing `l` against `r` emits, with first-level paths `/segment` and the
/// bare `/` for a wholesale replacement of the root.
pub open spec fn spec_compare(l: SpecVal, r: SpecVal) -> Seq<SpecPatch> {
    spec_diff(l, r, Seq::empty())
}

/// The patches for the pair of values at the location `p`: two objects are
/// reconciled member-wise and two arrays element-wise; any other unequal pair
/// is replaced wholesale at `p`; an equal pair emits nothing.
pub open spec fn spec_diff(l: SpecVal, r: SpecVal, p: Seq<char>) -> Seq<SpecPatch>
    decreases l, 2int, 0int,
{
    match (l, r) {
        (SpecVal::Obj(lo), SpecVal::Obj(ro)) => spec_diff_obj(lo, ro, p),
        (SpecVal::Arr(la), SpecVal::Arr(ra)) => spec_diff_arr(la, ra, p),
        _ => if l == r {
            Seq::empty()
        } else {
            seq![
                SpecPatch {
                    op: PatchOp::Replace,
                    path: replace_path(p),
                    value: Some(r),
                    old_value: Some(l),
                },
            ]
        },
    }
}

/// The patches for two arrays at `p`: nothing when already equal; otherwise
/// one pass over the left indices (recursive comparison while the right
/// still has the index, a removal once it does not), then an addition for
/// every trailing right-only index, all in ascending index order.
pub open spec fn spec_diff_arr(la: Seq<SpecVal>, ra: Seq<SpecVal>, p: Seq<char>) -> Seq<SpecPatch>
    decreases la, 1int, 0int,
{
    if la == ra {
        Seq::empty()
    } else {
        arr_items(la, ra, p, la.len() as int) + arr_adds(ra, la.len() as int, p, ra.len() as int)
    }
}

/// The patches of the per-index pass for the first `n` indices of `la`.
pub open spec fn arr_items(la: Seq<SpecVal>, ra: Seq<SpecVal>, p: Seq<char>, n: int) -> Seq<
    SpecPatch,
>
    decreases la, 0int, n,
{
    if n <= 0 || n > la.len() {
        Seq::empty()
    } else {
        let i = n - 1;
        let here = if i < ra.len() {
            spec_diff(la[i], ra[i], child_path(p, dec_str(i)))
        } else {
            seq![
                SpecPatch {
                    op: PatchOp::Remove,
                    path: child_path(p, dec_str(i)),
                    value: None,
                    old_value: Some(la[i]),
                },
            ]
        };
        arr_items(la, ra, p, i) + here
    }
}

/// The Add patches for the right-only indices `start <= i < n`, ascending.
pub open spec fn arr_adds(ra: Seq<SpecVal>, start: int, p: Seq<char>, n: int) -> Seq<SpecPatch>
    decreases n,
{
    if n <= 0 || n <= start || n > ra.len() {
        Seq::empty()
    } else {
        arr_adds(ra, start, p, n - 1) + seq![
            SpecPatch {
                op: PatchOp::Add,
                path: child_path(p, dec_str(n - 1)),
                value: Some(ra[n - 1]),
                old_value: None,
            },
        ]
    }
}

/// The patches for two objects at `p`: a removal for every left-only key in
/// the left object's order, then an addition for every right-only key in the
/// right object's order, then a recursive comparison for every shared key in
/// the left object's order.
pub open spec fn spec_diff_obj(
    lo: Seq<(Seq<char>, SpecVal)>,
    ro: Seq<(Seq<char>, SpecVal)>,
    p: Seq<char>,
) -> Seq<SpecPatch>
    decreases lo, 1int, 0int,
{
    obj_removes(lo, ro, p, lo.len() as int) + obj_adds(lo, ro, p, ro.len() as int) + obj_commons(
        lo,
        ro,
        p,
        lo.len() as int,
    )
}

/// The Remove patches for keys among the first `n` of `lo` that `ro` lacks.
pub open spec fn obj_removes(
    lo: Seq<(Seq<char>, SpecVal)>,
    ro: Seq<(Seq<char>, SpecVal)>,
    p: Seq<char>,
    n: int,
) -> Seq<SpecPatch>
    decreases n,
{
    if n <= 0 || n > lo.len() {
        Seq::empty()
    } else {
        let i = n - 1;
        obj_removes(lo, ro, p, i) + (if has_key(ro, lo[i].0) {
            Seq::<SpecPatch>::empty()
        } else {
            seq![
                SpecPatch {
                    op: PatchOp::Remove,
                    path: child_path(p, lo[i].0),
                    value: None,
                    old_value: Some(lo[i].1),
                },
            ]
        })
    }
}

/// The Add patches for keys among the first `n` of `ro` that `lo` lacks.
pub open spec fn obj_adds(
    lo: Seq<(Seq<char>, SpecVal)>,
    ro: Seq<(Seq<char>, SpecVal)>,
    p: Seq<char>,
    n: int,
) -> Seq<SpecPatch>
    decreases n,
{
    if n <= 0 || n > ro.len() {
        Seq::empty()
    } else {
        let i = n - 1;
        obj_adds(lo, ro, p, i) + (if has_key(lo, ro[i].0) {
            Seq::<SpecPatch>::empty()
        } else {
            seq![
                SpecPatch {
                    op: PatchOp::Add,
                    path: child_path(p, ro[i].0),
                    value: Some(ro[i].1),
                    old_value: None,
                },
            ]
        })
    }
}

/// The patches of the recursive pass over the first `n` keys of `lo` that
/// `ro` shares.
pub open spec fn obj_commons(
    lo: Seq<(Seq<char>, SpecVal)>,
    ro: Seq<(Seq<char>, SpecVal)>,
    p: Seq<char>,
    n: int,
) -> Seq<SpecPatch>
    decreases lo, 0int, n,
{
    if n <= 0 || n > lo.len() {
        Seq::empty()
    } else {
        let i = n - 1;
        obj_commons(lo, ro, p, i) + (if has_key(ro, lo[i].0) {
            spec_diff(lo[i].1, lookup(ro, lo[i].0), child_path(p, lo[i].0))
        } else {
            Seq::<SpecPatch>::empty()
        })
    }
}

/// The index of the first pair of `pairs` whose key equals `key`, if any.
pub fn find_index(pairs: &Vec<(String, Value)>, key: &String) -> (r: Option<usize>)
    ensures
        match r {
            Some(j) => j < pairs@.len() && obj_view(pairs@)[j as int].0 == key@ && has_key(
                obj_view(pairs@),
                key@,
            ),
            None => !has_key(obj_view(pairs@), key@),
        },
{
    proof {
        lemma_obj_view(pairs@);
    }
    let n = pairs.len();
    let mut j: usize = 0;
    while j < n
        invariant
            j <= n,
            n == pairs@.len(),
            forall|k: int| 0 <= k < j ==> (#[trigger] pairs@[k]).0@ != key@,
        decreases n - j,
    {
        if pairs[j].0 == *key {
            proof {
                lemma_obj_view(pairs@);
            }
            return Some(j);
        }
        j += 1;
    }
    proof {
        lemma_obj_view(pairs@);
        assert forall|k: int| 0 <= k < obj_view(pairs@).len() implies (#[trigger] obj_view(
            pairs@,
        )[k]).0 != key@ by {
            assert(obj_view(pairs@)[k] == (pairs@[k].0@, val_view(pairs@[k].1)));
        }
    }
    None
}

/// Compares two documents and appends to `patches` every edit their
/// difference needs, in the deterministic order the specification gives.
pub fn compare(left: &Value, right: &Value, patches: &mut Vec<Patch>)
    requires
        wf(val_view(*left)),
        wf(val_view(*right)),
    ensures
        patches_view(final(patches)@) == patches_view(old(patches)@) + spec_compare(
            val_view(*left),
            val_view(*right),
        ),
{
    let root = String::new();
    compare_at(left, right, root.as_str(), patches);
}

/// Dispatch at one location `prefix`: objects member-wise, arrays
/// element-wise, anything else replaced wholesale when not deeply equal.
pub fn compare_at(left: &Value, right: &Value, prefix: &str, patches: &mut Vec<Patch>)
    requires
        wf(val_view(*left)),
        wf(val_view(*right)),
    ensures
        patches_view(final(patches)@) == patches_view(old(patches)@) + spec_diff(
            val_view(*left),
            val_view(*right),
            prefix@,
        ),
    decreases *left, 1int,
{
    match (left, right) {
        (Value::Obj(lo), Value::Obj(ro)) => {
            compare_objects(lo, ro, patches, prefix);
        },
        (Value::Arr(la), Value::Arr(ra)) => {
            compare_arrays(la, ra, patches, prefix);
        },
        _ => {
            if !deep_eq(left, right) {
                let p = Patch {
                    op: PatchOp::Replace,
                    path: whole_path(prefix),
                    value: Some(value_clone(right)),
                    old_value: Some(value_clone(left)),
                };
                let ghost before = patches@;
                let ghost gp = p;
                patches.push(p);
                proof {
                    lemma_patches_push(before, gp);
                }
            } else {
                proof {
                    assert(patches_view(patches@) =~= patches_view(old(patches)@) + spec_diff(
                        val_view(*left),
                        val_view(*right),
                        prefix@,
                    ));
                }
            }
        },
    }
}

/// Compares two arrays at `prefix`: nothing when already deeply equal;
/// otherwise the per-index pass over the left, then an Add for every
/// trailing right-only index.
pub fn compare_arrays(
    left: &Vec<Value>,
    right: &Vec<Value>,
    patches: &mut Vec<Patch>,
    prefix: &str,
)
    requires
        wf_seq(arr_view(left@)),
        wf_seq(arr_view(right@)),
    ensures
        patches_view(final(patches)@) == patches_view(old(patches)@) + spec_diff_arr(
            arr_view(left@),
            arr_view(right@),
            prefix@,
        ),
    decreases left@, 0int,
{
    let ghost la = arr_view(left@);
    let ghost ra = arr_view(right@);
    if arrays_eq(left, right) {
        proof {
            assert(patches_view(patches@) =~= patches_view(old(patches)@) + spec_diff_arr(
                la,
                ra,
                prefix@,
            ));
        }
        return ;
    }
    let ghost base = patches@;
    let n = left.len();
    let m = right.len();
    let mut i: usize = 0;
    while i < n
        invariant
            i <= n,
            n == left@.len(),
            m == right@.len(),
            la == arr_view(left@),
            ra == arr_view(right@),
            wf_seq(arr_view(left@)),
            wf_seq(arr_view(right@)),
            patches_view(patches@) == patches_view(base) + arr_items(la, ra, prefix@, i as int),
        decreases n - i,
    {
        proof {
            lemma_arr_view(left@);
            lemma_arr_view(right@);
            lemma_wf_seq(la);
            lemma_wf_seq(ra);
        }
        let ghost mid = patches@;
        if i < m {
            let child = index_path(prefix, i);
            compare_at(&left[i], &right[i], child.as_str(), patches);
        } else {
            let p = Patch {
                op: PatchOp::Remove,
                path: index_path(prefix, i),
                value: None,
                old_value: Some(value_clone(&left[i])),
            };
            let ghost gp = p;
            patches.push(p);
            proof {
                lemma_patches_push(mid, gp);
            }
        }
        proof {
            assert(patches_view(patches@) =~= patches_view(base) + arr_items(
                la,
                ra,
                prefix@,
                i as int + 1,
            ));
        }
        i += 1;
    }
    let mut j: usize = n;
    while j < m
        invariant
            n <= j,
            j <= m || j == n,
            n == left@.len(),
            m == right@.len(),
            la == arr_view(left@),
            ra == arr_view(right@),
            patches_view(patches@) == patches_view(base) + arr_items(la, ra, prefix@, n as int)
                + arr_adds(ra, n as int, prefix@, j as int),
        decreases m - j,
    {
        proof {
            lemma_arr_view(right@);
        }
        let ghost mid = patches@;
        let p = Patch {
            op: PatchOp::Add,
            path: index_path(prefix, j),
            value: Some(value_clone(&right[j])),
            old_value: None,
        };
        let ghost gp = p;
        patches.push(p);
        proof {
            lemma_patches_push(mid, gp);
            assert(patches_view(patches@) =~= patches_view(base) + arr_items(
                la,
                ra,
                prefix@,
                n as int,
            ) + arr_adds(ra, n as int, prefix@, j as int + 1));
        }
        j += 1;
    }
    proof {
        lemma_arr_view(left@);
        lemma_arr_view(right@);
        assert(la != ra);
        assert(patches_view(patches@) =~= patches_view(old(patches)@) + spec_diff_arr(
            la,
            ra,
            prefix@,
        ));
    }
}

/// Compares two objects at `prefix`: Removes for left-only keys, Adds for
/// right-only keys, then a recursive comparison for every shared key.
pub fn compare_objects(
    left: &Vec<(String, Value)>,
    right: &Vec<(String, Value)>,
    patches: &mut Vec<Patch>,
    prefix: &str,
)
    requires
        keys_unique(obj_view(left@)),
        wf_pairs(obj_view(left@)),
        keys_unique(obj_view(right@)),
        wf_pairs(obj_view(right@)),
    ensures
        patches_view(final(patches)@) == patches_view(old(patches)@) + spec_diff_obj(
            obj_view(left@),
            obj_view(right@),
            prefix@,
        ),
    decreases left@, 0int,
{
    let ghost lo = obj_view(left@);
    let ghost ro = obj_view(right@);
    let ghost base = patches@;
    let n = left.len();
    let m = right.len();
    let mut i: usize = 0;
    while i < n
        invariant
            i <= n,
            n == left@.len(),
            m == right@.len(),
            lo == obj_view(left@),
            ro == obj_view(right@),
            patches_view(patches@) == patches_view(base) + obj_removes(lo, ro, prefix@, i as int),
        decreases n - i,
    {
        proof {
            lemma_obj_view(left@);
        }
        let ghost mid = patches@;
        if find_index(right, &left[i].0).is_none() {
            let p = Patch {
                op: PatchOp::Remove,
                path: key_path(prefix, left[i].0.as_str()),
                value: None,
                old_value: Some(value_clone(&left[i].1)),
            };
            let ghost gp = p;
            patches.push(p);
            proof {
                lemma_patches_push(mid, gp);
            }
        }
        proof {
            assert(patches_view(patches@) =~= patches_view(base) + obj_removes(
                lo,
                ro,
                prefix@,
                i as int + 1,
            ));
        }
        i += 1;
    }
    let mut i: usize = 0;
    while i < m
        invariant
            i <= m,
            n == left@.len(),
            m == right@.len(),
            lo == obj_view(left@),
            ro == obj_view(right@),
            patches_view(patches@) == patches_view(base) + obj_removes(lo, ro, prefix@, n as int)
                + obj_adds(lo, ro, prefix@, i as int),
        decreases m - i,
    {
        proof {
            lemma_obj_view(right@);
        }
        let ghost mid = patches@;
        if find_index(left, &right[i].0).is_none() {
            let p = Patch {
                op: PatchOp::Add,
                path: key_path(prefix, right[i].0.as_str()),
                value: Some(value_clone(&right[i].1)),
                old_value: None,
            };
            let ghost gp = p;
            patches.push(p);
            proof {
                lemma_patches_push(mid, gp);
            }
        }
        proof {
            assert(patches_view(patches@) =~= patches_view(base) + obj_removes(
                lo,
                ro,
                prefix@,
                n as int,
            ) + obj_adds(lo, ro, prefix@, i as int + 1));
        }
        i += 1;
    }
    let mut i: usize = 0;
    while i < n
        invariant
            i <= n,
            n == left@.len(),
            m == right@.len(),
            lo == obj_view(left@),
            ro == obj_view(right@),
            keys_unique(obj_view(left@)),
            wf_pairs(obj_view(left@)),
            keys_unique(obj_view(right@)),
            wf_pairs(obj_view(right@)),
            patches_view(patches@) == patches_view(base) + obj_removes(lo, ro, prefix@, n as int)
                + obj_adds(lo, ro, prefix@, m as int) + obj_commons(lo, ro, prefix@, i as int),
        decreases n - i,
    {
        proof {
            lemma_obj_view(left@);
            lemma_obj_view(right@);
            lemma_wf_pairs(lo);
            lemma_wf_pairs(ro);
        }
        let ghost mid = patches@;
        match find_index(right, &left[i].0) {
            Some(j) => {
                proof {
                    lemma_lookup_unique(ro, j as int);
                }
                let child = key_path(prefix, left[i].0.as_str());
                compare_at(&left[i].1, &right[j].1, child.as_str(), patches);
            },
            None => {},
        }
        proof {
            assert(patches_view(patches@) =~= patches_view(base) + obj_removes(
                lo,
                ro,
                prefix@,
                n as int,
            ) + obj_adds(lo, ro, prefix@, m as int) + obj_commons(lo, ro, prefix@, i as int + 1));
        }
        i += 1;
    }
    proof {
        lemma_obj_view(left@);
        lemma_obj_view(right@);
        assert(patches_view(patches@) =~= patches_view(old(patches)@) + spec_diff_obj(
            lo,
            ro,
            prefix@,
        ));
    }
}

} // verus!
