use vstd::prelude::*;
use crate::compare::{
    arr_adds, arr_items, obj_adds, obj_commons, obj_removes, spec_compare, spec_diff,
    spec_diff_arr, spec_diff_obj,
};
use crate::patch::{PatchOp, SpecPatch};
use crate::paths::{child_path, dec_str, replace_path};
use crate::value::{
    SpecVal, has_key, keys_unique, lemma_lookup_unique, lemma_wf_pairs, lemma_wf_seq, lookup, wf,
    wf_pairs, wf_seq,
};

verus! {

/// A scalar: any value that is neither an array nor an object.
pub open spec fn is_scalar(v: SpecVal) -> bool {
    !(v is Arr) && !(v is Obj)
}

/// A path that begins with the separator.
pub open spec fn rooted(p: Seq<char>) -> bool {
    p.len() > 0 && p[0] == '/'
}

/// A location prefix as the comparison builds them: empty at the root,
/// rooted everywhere below.
pub open spec fn prefix_ok(p: Seq<char>) -> bool {
    p.len() == 0 || p[0] == '/'
}

/// Every patch of `ps` carries a rooted path.
pub open spec fn all_rooted(ps: Seq<SpecPatch>) -> bool {
    forall|i: int| 0 <= i < ps.len() ==> rooted((#[trigger] ps[i]).path)
}

proof fn lemma_child_rooted(p: Seq<char>, seg: Seq<char>)
    requires
        prefix_ok(p),
    ensures
        rooted(child_path(p, seg)),
{
}

proof fn lemma_replace_rooted(p: Seq<char>)
    requires
        prefix_ok(p),
    ensures
        rooted(replace_path(p)),
{
}

proof fn lemma_all_rooted_concat(a: Seq<SpecPatch>, b: Seq<SpecPatch>)
    requires
        all_rooted(a),
        all_rooted(b),
    ensures
        all_rooted(a + b),
{
    assert forall|i: int| 0 <= i < (a + b).len() implies rooted(((a + b)[i]).path) by {
        if i < a.len() {
            assert((a + b)[i] == a[i]);
        } else {
            assert((a + b)[i] == b[i - a.len()]);
        }
    }
}

/// Reflexivity: a well-formed document compared with itself yields no
/// patches, whatever the location.
pub proof fn lemma_diff_reflexive(v: SpecVal, p: Seq<char>)
    requires
        wf(v),
    ensures
        spec_diff(v, v, p) == Seq::<SpecPatch>::empty(),
    decreases v, 2int, 0int,
{
    match v {
        SpecVal::Obj(lo) => {
            lemma_obj_removes_refl(lo, p, lo.len() as int);
            lemma_obj_adds_refl(lo, p, lo.len() as int);
            lemma_obj_commons_refl(lo, p, lo.len() as int);
            assert(spec_diff_obj(lo, lo, p) =~= Seq::<SpecPatch>::empty());
        },
        _ => {},
    }
}

proof fn lemma_obj_removes_refl(lo: Seq<(Seq<char>, SpecVal)>, p: Seq<char>, n: int)
    ensures
        obj_removes(lo, lo, p, n) == Seq::<SpecPatch>::empty(),
    decreases n,
{
    if 0 < n <= lo.len() {
        lemma_obj_removes_refl(lo, p, n - 1);
        assert(has_key(lo, lo[n - 1].0));
        assert(obj_removes(lo, lo, p, n) =~= Seq::<SpecPatch>::empty());
    }
}

proof fn lemma_obj_adds_refl(lo: Seq<(Seq<char>, SpecVal)>, p: Seq<char>, n: int)
    ensures
        obj_adds(lo, lo, p, n) == Seq::<SpecPatch>::empty(),
    decreases n,
{
    if 0 < n <= lo.len() {
        lemma_obj_adds_refl(lo, p, n - 1);
        assert(has_key(lo, lo[n - 1].0));
        assert(obj_adds(lo, lo, p, n) =~= Seq::<SpecPatch>::empty());
    }
}

proof fn lemma_obj_commons_refl(lo: Seq<(Seq<char>, SpecVal)>, p: Seq<char>, n: int)
    requires
        keys_unique(lo),
        wf_pairs(lo),
    ensures
        obj_commons(lo, lo, p, n) == Seq::<SpecPatch>::empty(),
    decreases lo, 0int, n,
{
    if 0 < n <= lo.len() {
        let i = n - 1;
        lemma_obj_commons_refl(lo, p, i);
        lemma_lookup_unique(lo, i);
        lemma_wf_pairs(lo);
        lemma_diff_reflexive(lo[i].1, child_path(p, lo[i].0));
        assert(obj_commons(lo, lo, p, n) =~= Seq::<SpecPatch>::empty());
    }
}

/// Reflexivity at the root: comparing a well-formed document with itself
/// produces an empty patch list.
pub proof fn lemma_compare_reflexive(v: SpecVal)
    requires
        wf(v),
    ensures
        spec_compare(v, v) == Seq::<SpecPatch>::empty(),
{
    lemma_diff_reflexive(v, Seq::empty());
}

/// Scalar replacement: two distinct scalars, of any types, compare to
/// exactly one Replace patch at the bare root path `/`, carrying the new
/// value and the old one.
pub proof fn lemma_scalar_replace(a: SpecVal, b: SpecVal)
    requires
        is_scalar(a),
        is_scalar(b),
        a != b,
    ensures
        spec_compare(a, b) == seq![
            SpecPatch {
                op: PatchOp::Replace,
                path: seq!['/'],
                value: Some(b),
                old_value: Some(a),
            },
        ],
{
    assert(replace_path(Seq::<char>::empty()) =~= seq!['/']);
}

/// Diffing an empty object against any object yields exactly one Add per
/// key, in the right object's order, at `prefix + "/" + key`, carrying the
/// bound value.
pub proof fn lemma_empty_object_adds(ro: Seq<(Seq<char>, SpecVal)>, p: Seq<char>)
    ensures
        spec_diff_obj(Seq::empty(), ro, p).len() == ro.len(),
        forall|i: int|
            0 <= i < ro.len() ==> spec_diff_obj(Seq::empty(), ro, p)[i] == (SpecPatch {
                op: PatchOp::Add,
                path: child_path(p, (#[trigger] ro[i]).0),
                value: Some(ro[i].1),
                old_value: None,
            }),
{
    let lo = Seq::<(Seq<char>, SpecVal)>::empty();
    lemma_obj_adds_all(lo, ro, p, ro.len() as int);
    assert(spec_diff_obj(lo, ro, p) =~= obj_adds(lo, ro, p, ro.len() as int));
}

proof fn lemma_obj_adds_all(
    lo: Seq<(Seq<char>, SpecVal)>,
    ro: Seq<(Seq<char>, SpecVal)>,
    p: Seq<char>,
    n: int,
)
    requires
        lo.len() == 0,
        0 <= n <= ro.len(),
    ensures
        obj_adds(lo, ro, p, n).len() == n,
        forall|i: int|
            0 <= i < n ==> obj_adds(lo, ro, p, n)[i] == (SpecPatch {
                op: PatchOp::Add,
                path: child_path(p, (#[trigger] ro[i]).0),
                value: Some(ro[i].1),
                old_value: None,
            }),
    decreases n,
{
    if n > 0 {
        lemma_obj_adds_all(lo, ro, p, n - 1);
    }
}

/// Diffing any object against an empty object yields exactly one Remove per
/// key, in the left object's order, at `prefix + "/" + key`, carrying the
/// removed value.
pub proof fn lemma_empty_object_removes(lo: Seq<(Seq<char>, SpecVal)>, p: Seq<char>)
    ensures
        spec_diff_obj(lo, Seq::empty(), p).len() == lo.len(),
        forall|i: int|
            0 <= i < lo.len() ==> spec_diff_obj(lo, Seq::empty(), p)[i] == (SpecPatch {
                op: PatchOp::Remove,
                path: child_path(p, (#[trigger] lo[i]).0),
                value: None,
                old_value: Some(lo[i].1),
            }),
{
    let ro = Seq::<(Seq<char>, SpecVal)>::empty();
    lemma_obj_removes_all(lo, ro, p, lo.len() as int);
    lemma_obj_commons_none(lo, ro, p, lo.len() as int);
    assert(spec_diff_obj(lo, ro, p) =~= obj_removes(lo, ro, p, lo.len() as int));
}

proof fn lemma_obj_removes_all(
    lo: Seq<(Seq<char>, SpecVal)>,
    ro: Seq<(Seq<char>, SpecVal)>,
    p: Seq<char>,
    n: int,
)
    requires
        ro.len() == 0,
        0 <= n <= lo.len(),
    ensures
        obj_removes(lo, ro, p, n).len() == n,
        forall|i: int|
            0 <= i < n ==> obj_removes(lo, ro, p, n)[i] == (SpecPatch {
                op: PatchOp::Remove,
                path: child_path(p, (#[trigger] lo[i]).0),
                value: None,
                old_value: Some(lo[i].1),
            }),
    decreases n,
{
    if n > 0 {
        lemma_obj_removes_all(lo, ro, p, n - 1);
    }
}

proof fn lemma_obj_commons_none(
    lo: Seq<(Seq<char>, SpecVal)>,
    ro: Seq<(Seq<char>, SpecVal)>,
    p: Seq<char>,
    n: int,
)
    requires
        ro.len() == 0,
    ensures
        obj_commons(lo, ro, p, n) == Seq::<SpecPatch>::empty(),
    decreases n,
{
    if 0 < n <= lo.len() {
        lemma_obj_commons_none(lo, ro, p, n - 1);
        assert(obj_commons(lo, ro, p, n) =~= Seq::<SpecPatch>::empty());
    }
}

proof fn lemma_arr_items_equal_prefix(la: Seq<SpecVal>, ra: Seq<SpecVal>, p: Seq<char>, n: int)
    requires
        0 <= n <= la.len(),
        n <= ra.len(),
        forall|i: int| 0 <= i < n ==> la[i] == #[trigger] ra[i],
        wf_seq(la),
    ensures
        arr_items(la, ra, p, n) == Seq::<SpecPatch>::empty(),
    decreases n,
{
    if n > 0 {
        let i = n - 1;
        lemma_arr_items_equal_prefix(la, ra, p, i);
        lemma_wf_seq(la);
        lemma_diff_reflexive(la[i], child_path(p, dec_str(i)));
        assert(arr_items(la, ra, p, n) =~= Seq::<SpecPatch>::empty());
    }
}

proof fn lemma_arr_adds_all(ra: Seq<SpecVal>, start: int, p: Seq<char>, n: int)
    requires
        0 <= start <= n <= ra.len(),
    ensures
        arr_adds(ra, start, p, n).len() == n - start,
        forall|k: int|
            0 <= k < n - start ==> arr_adds(ra, start, p, n)[k] == (SpecPatch {
                op: PatchOp::Add,
                path: child_path(p, dec_str(start + k)),
                value: Some(ra[start + k]),
                old_value: None,
            }),
    decreases n,
{
    if n > start {
        lemma_arr_adds_all(ra, start, p, n - 1);
    }
}

proof fn lemma_arr_items_removes(la: Seq<SpecVal>, ra: Seq<SpecVal>, p: Seq<char>, n: int)
    requires
        ra.len() <= n <= la.len(),
        forall|i: int| 0 <= i < ra.len() ==> la[i] == #[trigger] ra[i],
        wf_seq(la),
    ensures
        arr_items(la, ra, p, n).len() == n - ra.len(),
        forall|k: int|
            0 <= k < n - ra.len() ==> arr_items(la, ra, p, n)[k] == (SpecPatch {
                op: PatchOp::Remove,
                path: child_path(p, dec_str(ra.len() + k)),
                value: None,
                old_value: Some(la[ra.len() + k]),
            }),
    decreases n,
{
    if n == ra.len() {
        lemma_arr_items_equal_prefix(la, ra, p, n);
    } else {
        lemma_arr_items_removes(la, ra, p, n - 1);
    }
}

/// Array append: when the right array extends the left one, the comparison
/// emits exactly one Add per trailing right-only index, in ascending index
/// order, carrying the appended element.
pub proof fn lemma_array_append(la: Seq<SpecVal>, ra: Seq<SpecVal>, p: Seq<char>)
    requires
        la.len() < ra.len(),
        forall|i: int| 0 <= i < la.len() ==> la[i] == #[trigger] ra[i],
        wf_seq(la),
    ensures
        spec_diff_arr(la, ra, p).len() == ra.len() - la.len(),
        forall|k: int|
            0 <= k < ra.len() - la.len() ==> spec_diff_arr(la, ra, p)[k] == (SpecPatch {
                op: PatchOp::Add,
                path: child_path(p, dec_str(la.len() + k)),
                value: Some(ra[la.len() + k]),
                old_value: None,
            }),
{
    assert(la != ra);
    lemma_arr_items_equal_prefix(la, ra, p, la.len() as int);
    lemma_arr_adds_all(ra, la.len() as int, p, ra.len() as int);
    assert(spec_diff_arr(la, ra, p) =~= arr_adds(ra, la.len() as int, p, ra.len() as int));
}

/// Array truncate: when the left array extends the right one, the comparison
/// emits exactly one Remove per trailing left-only index, in ascending index
/// order, carrying the removed element.
pub proof fn lemma_array_truncate(la: Seq<SpecVal>, ra: Seq<SpecVal>, p: Seq<char>)
    requires
        ra.len() < la.len(),
        forall|i: int| 0 <= i < ra.len() ==> la[i] == #[trigger] ra[i],
        wf_seq(la),
    ensures
        spec_diff_arr(la, ra, p).len() == la.len() - ra.len(),
        forall|k: int|
            0 <= k < la.len() - ra.len() ==> spec_diff_arr(la, ra, p)[k] == (SpecPatch {
                op: PatchOp::Remove,
                path: child_path(p, dec_str(ra.len() + k)),
                value: None,
                old_value: Some(la[ra.len() + k]),
            }),
{
    assert(la != ra);
    lemma_arr_items_removes(la, ra, p, la.len() as int);
    assert(spec_diff_arr(la, ra, p) =~= arr_items(la, ra, p, la.len() as int));
}

/// Path format: at a well-formed location prefix, every patch the
/// comparison emits carries a path that begins with `/`.
pub proof fn lemma_diff_paths_rooted(l: SpecVal, r: SpecVal, p: Seq<char>)
    requires
        prefix_ok(p),
    ensures
        all_rooted(spec_diff(l, r, p)),
    decreases l, 2int, 0int,
{
    match (l, r) {
        (SpecVal::Obj(lo), SpecVal::Obj(ro)) => {
            lemma_obj_removes_rooted(lo, ro, p, lo.len() as int);
            lemma_obj_adds_rooted(lo, ro, p, ro.len() as int);
            lemma_obj_commons_rooted(lo, ro, p, lo.len() as int);
            lemma_all_rooted_concat(
                obj_removes(lo, ro, p, lo.len() as int),
                obj_adds(lo, ro, p, ro.len() as int),
            );
            lemma_all_rooted_concat(
                obj_removes(lo, ro, p, lo.len() as int) + obj_adds(lo, ro, p, ro.len() as int),
                obj_commons(lo, ro, p, lo.len() as int),
            );
        },
        (SpecVal::Arr(la), SpecVal::Arr(ra)) => {
            if la != ra {
                lemma_arr_items_rooted(la, ra, p, la.len() as int);
                lemma_arr_adds_rooted(ra, la.len() as int, p, ra.len() as int);
                lemma_all_rooted_concat(
                    arr_items(la, ra, p, la.len() as int),
                    arr_adds(ra, la.len() as int, p, ra.len() as int),
                );
            }
        },
        _ => {
            if l != r {
                lemma_replace_rooted(p);
            }
        },
    }
}

proof fn lemma_arr_items_rooted(la: Seq<SpecVal>, ra: Seq<SpecVal>, p: Seq<char>, n: int)
    requires
        prefix_ok(p),
    ensures
        all_rooted(arr_items(la, ra, p, n)),
    decreases la, 0int, n,
{
    if 0 < n <= la.len() {
        let i = n - 1;
        lemma_arr_items_rooted(la, ra, p, i);
        let child = child_path(p, dec_str(i));
        lemma_child_rooted(p, dec_str(i));
        if i < ra.len() {
            lemma_diff_paths_rooted(la[i], ra[i], child);
            lemma_all_rooted_concat(arr_items(la, ra, p, i), spec_diff(la[i], ra[i], child));
        } else {
            assert forall|k: int| 0 <= k < arr_items(la, ra, p, n).len() implies rooted(
                (#[trigger] arr_items(la, ra, p, n)[k]).path,
            ) by {
                if k < arr_items(la, ra, p, i).len() {
                    assert(arr_items(la, ra, p, n)[k] == arr_items(la, ra, p, i)[k]);
                }
            }
        }
    }
}

proof fn lemma_arr_adds_rooted(ra: Seq<SpecVal>, start: int, p: Seq<char>, n: int)
    requires
        prefix_ok(p),
    ensures
        all_rooted(arr_adds(ra, start, p, n)),
    decreases n,
{
    if n > 0 && n > start && n <= ra.len() {
        lemma_arr_adds_rooted(ra, start, p, n - 1);
        lemma_child_rooted(p, dec_str(n - 1));
        assert forall|k: int| 0 <= k < arr_adds(ra, start, p, n).len() implies rooted(
            (#[trigger] arr_adds(ra, start, p, n)[k]).path,
        ) by {
            if k < arr_adds(ra, start, p, n - 1).len() {
                assert(arr_adds(ra, start, p, n)[k] == arr_adds(ra, start, p, n - 1)[k]);
            }
        }
    }
}

proof fn lemma_obj_removes_rooted(
    lo: Seq<(Seq<char>, SpecVal)>,
    ro: Seq<(Seq<char>, SpecVal)>,
    p: Seq<char>,
    n: int,
)
    requires
        prefix_ok(p),
    ensures
        all_rooted(obj_removes(lo, ro, p, n)),
    decreases n,
{
    if 0 < n <= lo.len() {
        lemma_obj_removes_rooted(lo, ro, p, n - 1);
        lemma_child_rooted(p, lo[n - 1].0);
        assert forall|k: int| 0 <= k < obj_removes(lo, ro, p, n).len() implies rooted(
            (#[trigger] obj_removes(lo, ro, p, n)[k]).path,
        ) by {
            if k < obj_removes(lo, ro, p, n - 1).len() {
                assert(obj_removes(lo, ro, p, n)[k] == obj_removes(lo, ro, p, n - 1)[k]);
            }
        }
    }
}

proof fn lemma_obj_adds_rooted(
    lo: Seq<(Seq<char>, SpecVal)>,
    ro: Seq<(Seq<char>, SpecVal)>,
    p: Seq<char>,
    n: int,
)
    requires
        prefix_ok(p),
    ensures
        all_rooted(obj_adds(lo, ro, p, n)),
    decreases n,
{
    if 0 < n <= ro.len() {
        lemma_obj_adds_rooted(lo, ro, p, n - 1);
        lemma_child_rooted(p, ro[n - 1].0);
        assert forall|k: int| 0 <= k < obj_adds(lo, ro, p, n).len() implies rooted(
            (#[trigger] obj_adds(lo, ro, p, n)[k]).path,
        ) by {
            if k < obj_adds(lo, ro, p, n - 1).len() {
                assert(obj_adds(lo, ro, p, n)[k] == obj_adds(lo, ro, p, n - 1)[k]);
            }
        }
    }
}

proof fn lemma_obj_commons_rooted(
    lo: Seq<(Seq<char>, SpecVal)>,
    ro: Seq<(Seq<char>, SpecVal)>,
    p: Seq<char>,
    n: int,
)
    requires
        prefix_ok(p),
    ensures
        all_rooted(obj_commons(lo, ro, p, n)),
    decreases lo, 0int, n,
{
    if 0 < n <= lo.len() {
        let i = n - 1;
        lemma_obj_commons_rooted(lo, ro, p, i);
        let child = child_path(p, lo[i].0);
        lemma_child_rooted(p, lo[i].0);
        if has_key(ro, lo[i].0) {
            lemma_diff_paths_rooted(lo[i].1, lookup(ro, lo[i].0), child);
            lemma_all_rooted_concat(
                obj_commons(lo, ro, p, i),
                spec_diff(lo[i].1, lookup(ro, lo[i].0), child),
            );
        }
    }
}

/// Path format at the root: every path the comparison of two documents
/// emits begins with `/`.
pub proof fn lemma_compare_paths_rooted(l: SpecVal, r: SpecVal)
    ensures
        all_rooted(spec_compare(l, r)),
{
    lemma_diff_paths_rooted(l, r, Seq::empty());
}

} // verus!
