use vstd::prelude::*;

verus! {

/// Mathematical model of a document tree: the spec-level mirror of [`Value`].
///
/// A number is carried as the sequence of characters of its literal text, so
/// two numbers are equal exactly when their texts are; an object is a sequence
/// of key/value pairs in insertion order.
#[verifier::ext_equal]
pub enum SpecVal {
    Null,
    Bool(bool),
    Num(Seq<char>),
    Text(Seq<char>),
    Arr(Seq<SpecVal>),
    Obj(Seq<(Seq<char>, SpecVal)>),
}

/// A parsed document tree: null, boolean, number, string, ordered sequence,
/// or ordered-insertion string-keyed mapping.
///
/// A number is held as its literal text (e.g. `"42"`, `"3.14159"`), which is
/// all the comparison logic ever reads of it.
#[derive(Debug, PartialEq, Eq)]
pub enum Value {
    Null,
    Bool(bool),
    Num(String),
    Text(String),
    Arr(Vec<Value>),
    Obj(Vec<(String, Value)>),
}

/// The model of one value: the spec-level meaning of a [`Value`].
pub open spec fn val_view(v: Value) -> SpecVal
    decreases v,
{
    match v {
        Value::Null => SpecVal::Null,
        Value::Bool(b) => SpecVal::Bool(b),
        Value::Num(s) => SpecVal::Num(s@),
        Value::Text(s) => SpecVal::Text(s@),
        Value::Arr(items) => SpecVal::Arr(arr_view(items@)),
        Value::Obj(pairs) => SpecVal::Obj(obj_view(pairs@)),
    }
}

/// The models of a sequence of values, element by element.
pub open spec fn arr_view(items: Seq<Value>) -> Seq<SpecVal>
    decreases items,
{
    if items.len() == 0 {
        Seq::empty()
    } else {
        seq![val_view(items[0])] + arr_view(items.drop_first())
    }
}

/// The models of a sequence of key/value pairs, pair by pair.
pub open spec fn obj_view(pairs: Seq<(String, Value)>) -> Seq<(Seq<char>, SpecVal)>
    decreases pairs,
{
    if pairs.len() == 0 {
        Seq::empty()
    } else {
        seq![(pairs[0].0@, val_view(pairs[0].1))] + obj_view(pairs.drop_first())
    }
}

impl View for Value {
    type V = SpecVal;

    open spec fn view(&self) -> SpecVal {
        val_view(*self)
    }
}

impl DeepView for Value {
    type V = SpecVal;

    open spec fn deep_view(&self) -> SpecVal {
        val_view(*self)
    }
}

/// `arr_view` is pointwise `val_view`.
pub proof fn lemma_arr_view(items: Seq<Value>)
    ensures
        arr_view(items).len() == items.len(),
        forall|i: int| 0 <= i < items.len() ==> arr_view(items)[i] == val_view(#[trigger] items[i]),
    decreases items,
{
    if items.len() > 0 {
        lemma_arr_view(items.drop_first());
        assert forall|i: int| 0 <= i < items.len() implies arr_view(items)[i] == val_view(
            #[trigger] items[i],
        ) by {
            if i > 0 {
                assert(items.drop_first()[i - 1] == items[i]);
                assert(arr_view(items)[i] == arr_view(items.drop_first())[i - 1]);
            }
        }
    }
}

/// Does the pair sequence `o` bind the key `k`?
pub open spec fn has_key(o: Seq<(Seq<char>, SpecVal)>, k: Seq<char>) -> bool {
    exists|j: int| 0 <= j < o.len() && o[j].0 == k
}

/// The value bound to `k` in `o`; meaningful when the keys of `o` are unique
/// and one of them is `k`.
pub open spec fn lookup(o: Seq<(Seq<char>, SpecVal)>, k: Seq<char>) -> SpecVal {
    let j = choose|j: int| 0 <= j < o.len() && o[j].0 == k;
    o[j].1
}

/// No two pairs of `o` bind the same key.
pub open spec fn keys_unique(o: Seq<(Seq<char>, SpecVal)>) -> bool {
    forall|i: int, j: int| 0 <= i < j < o.len() ==> o[i].0 != o[j].0
}

/// Every element of `items` is well formed.
pub open spec fn wf_seq(items: Seq<SpecVal>) -> bool
    decreases items,
{
    items.len() == 0 || (wf(items[0]) && wf_seq(items.drop_first()))
}

/// Every value of `pairs` is well formed.
pub open spec fn wf_pairs(pairs: Seq<(Seq<char>, SpecVal)>) -> bool
    decreases pairs,
{
    pairs.len() == 0 || (wf(pairs[0].1) && wf_pairs(pairs.drop_first()))
}

/// A well-formed document tree: every object in it has unique keys.
pub open spec fn wf(v: SpecVal) -> bool
    decreases v,
{
    match v {
        SpecVal::Arr(items) => wf_seq(items),
        SpecVal::Obj(pairs) => keys_unique(pairs) && wf_pairs(pairs),
        _ => true,
    }
}

/// `wf_seq` holds exactly when every element is well formed.
pub proof fn lemma_wf_seq(items: Seq<SpecVal>)
    ensures
        wf_seq(items) <==> (forall|i: int| 0 <= i < items.len() ==> wf(#[trigger] items[i])),
    decreases items,
{
    if items.len() > 0 {
        lemma_wf_seq(items.drop_first());
        assert forall|i: int| 1 <= i < items.len() implies items.drop_first()[i - 1] == #[trigger] items[i] by {}
    }
}

/// `wf_pairs` holds exactly when every bound value is well formed.
pub proof fn lemma_wf_pairs(pairs: Seq<(Seq<char>, SpecVal)>)
    ensures
        wf_pairs(pairs) <==> (forall|i: int|
            0 <= i < pairs.len() ==> wf((#[trigger] pairs[i]).1)),
    decreases pairs,
{
    if pairs.len() > 0 {
        lemma_wf_pairs(pairs.drop_first());
        assert forall|i: int| 1 <= i < pairs.len() implies pairs.drop_first()[i - 1] == #[trigger] pairs[i] by {}
    }
}

/// With unique keys, looking a key up returns the value of the pair that
/// carries it.
pub proof fn lemma_lookup_unique(o: Seq<(Seq<char>, SpecVal)>, j: int)
    requires
        keys_unique(o),
        0 <= j < o.len(),
    ensures
        has_key(o, o[j].0),
        lookup(o, o[j].0) == o[j].1,
{
    assert(0 <= j < o.len() && o[j].0 == o[j].0);
    let j2 = choose|j2: int| 0 <= j2 < o.len() && o[j2].0 == o[j].0;
    if j2 != j {
        if j2 < j {
            assert(o[j2].0 != o[j].0);
        } else {
            assert(o[j].0 != o[j2].0);
        }
    }
}

/// `obj_view` is pointwise: key view paired with value view.
pub proof fn lemma_obj_view(pairs: Seq<(String, Value)>)
    ensures
        obj_view(pairs).len() == pairs.len(),
        forall|i: int|
            0 <= i < pairs.len() ==> obj_view(pairs)[i] == (
                (#[trigger] pairs[i]).0@,
                val_view(pairs[i].1),
            ),
    decreases pairs,
{
    if pairs.len() > 0 {
        lemma_obj_view(pairs.drop_first());
        assert forall|i: int| 0 <= i < pairs.len() implies obj_view(pairs)[i] == (
            (#[trigger] pairs[i]).0@,
            val_view(pairs[i].1),
        ) by {
            if i > 0 {
                assert(pairs.drop_first()[i - 1] == pairs[i]);
                assert(obj_view(pairs)[i] == obj_view(pairs.drop_first())[i - 1]);
            }
        }
    }
}

/// Deep, type-sensitive equality of two document trees: same variant and same
/// scalar value, or same-length, pointwise deeply-equal children.
pub fn deep_eq(a: &Value, b: &Value) -> (r: bool)
    ensures
        r == (val_view(*a) == val_view(*b)),
    decreases *a, 1int,
{
    match (a, b) {
        (Value::Null, Value::Null) => true,
        (Value::Bool(x), Value::Bool(y)) => *x == *y,
        (Value::Num(x), Value::Num(y)) => *x == *y,
        (Value::Text(x), Value::Text(y)) => *x == *y,
        (Value::Arr(x), Value::Arr(y)) => arrays_eq(x, y),
        (Value::Obj(x), Value::Obj(y)) => objects_eq(x, y),
        _ => false,
    }
}

/// Deep equality of two value sequences: same length, pointwise deeply equal.
pub fn arrays_eq(x: &Vec<Value>, y: &Vec<Value>) -> (r: bool)
    ensures
        r == (arr_view(x@) == arr_view(y@)),
    decreases x@, 0int,
{
    proof {
        lemma_arr_view(x@);
        lemma_arr_view(y@);
    }
    if x.len() != y.len() {
        return false;
    }
    let n = x.len();
    let mut i: usize = 0;
    while i < n
        invariant
            i <= n,
            n == x@.len(),
            n == y@.len(),
            forall|j: int| 0 <= j < i ==> val_view(x@[j]) == val_view(#[trigger] y@[j]),
        decreases n - i,
    {
        if !deep_eq(&x[i], &y[i]) {
            proof {
                lemma_arr_view(x@);
                lemma_arr_view(y@);
            }
            return false;
        }
        i += 1;
    }
    proof {
        lemma_arr_view(x@);
        lemma_arr_view(y@);
        assert forall|k: int| 0 <= k < arr_view(x@).len() implies arr_view(x@)[k] == arr_view(
            y@,
        )[k] by {
            assert(arr_view(x@)[k] == val_view(x@[k]));
            assert(arr_view(y@)[k] == val_view(y@[k]));
        }
        assert(arr_view(x@) =~= arr_view(y@));
    }
    true
}

/// Deep equality of two pair sequences: same length and, pair by pair, equal
/// keys and deeply-equal values.
pub fn objects_eq(x: &Vec<(String, Value)>, y: &Vec<(String, Value)>) -> (r: bool)
    ensures
        r == (obj_view(x@) == obj_view(y@)),
    decreases x@, 0int,
{
    proof {
        lemma_obj_view(x@);
        lemma_obj_view(y@);
    }
    if x.len() != y.len() {
        return false;
    }
    let n = x.len();
    let mut i: usize = 0;
    while i < n
        invariant
            i <= n,
            n == x@.len(),
            n == y@.len(),
            forall|j: int|
                0 <= j < i ==> (x@[j].0@ == (#[trigger] y@[j]).0@ && val_view(x@[j].1)
                    == val_view(y@[j].1)),
        decreases n - i,
    {
        let keys_match = x[i].0 == y[i].0;
        if !keys_match || !deep_eq(&x[i].1, &y[i].1) {
            proof {
                lemma_obj_view(x@);
                lemma_obj_view(y@);
                assert(obj_view(x@)[i as int] != obj_view(y@)[i as int]);
            }
            return false;
        }
        i += 1;
    }
    proof {
        lemma_obj_view(x@);
        lemma_obj_view(y@);
        assert forall|k: int| 0 <= k < obj_view(x@).len() implies obj_view(x@)[k] == obj_view(
            y@,
        )[k] by {
            assert(obj_view(x@)[k] == (x@[k].0@, val_view(x@[k].1)));
            assert(obj_view(y@)[k] == (y@[k].0@, val_view(y@[k].1)));
        }
        assert(obj_view(x@) =~= obj_view(y@));
    }
    true
}

/// Decides well-formedness: does every object in the tree have unique keys?
pub fn is_wf(v: &Value) -> (r: bool)
    ensures
        r == wf(val_view(*v)),
    decreases *v, 1int,
{
    match v {
        Value::Arr(items) => arr_is_wf(items),
        Value::Obj(pairs) => keys_are_unique(pairs) && obj_is_wf(pairs),
        _ => true,
    }
}

/// Decides whether every element of `items` is well formed.
pub fn arr_is_wf(items: &Vec<Value>) -> (r: bool)
    ensures
        r == wf_seq(arr_view(items@)),
    decreases items@, 0int,
{
    let n = items.len();
    let mut i: usize = 0;
    while i < n
        invariant
            i <= n,
            n == items@.len(),
            forall|j: int| 0 <= j < i ==> wf(val_view(#[trigger] items@[j])),
        decreases n - i,
    {
        if !is_wf(&items[i]) {
            proof {
                lemma_arr_view(items@);
                lemma_wf_seq(arr_view(items@));
                assert(arr_view(items@)[i as int] == val_view(items@[i as int]));
            }
            return false;
        }
        i += 1;
    }
    proof {
        lemma_arr_view(items@);
        lemma_wf_seq(arr_view(items@));
        assert forall|j: int| 0 <= j < arr_view(items@).len() implies wf(
            #[trigger] arr_view(items@)[j],
        ) by {
            assert(arr_view(items@)[j] == val_view(items@[j]));
        }
    }
    true
}

/// Decides whether no two pairs of `pairs` carry the same key.
pub fn keys_are_unique(pairs: &Vec<(String, Value)>) -> (r: bool)
    ensures
        r == keys_unique(obj_view(pairs@)),
{
    proof {
        lemma_obj_view(pairs@);
    }
    let n = pairs.len();
    let mut i: usize = 0;
    while i < n
        invariant
            i <= n,
            n == pairs@.len(),
            forall|a: int, b: int|
                0 <= a < b < n && a < i ==> (#[trigger] pairs@[a]).0@ != (#[trigger] pairs@[b]).0@,
        decreases n - i,
    {
        let mut j: usize = i + 1;
        while j < n
            invariant
                i < j <= n || (i + 1 >= n && j == i + 1),
                i < n,
                n == pairs@.len(),
                forall|b: int| i < b < j ==> pairs@[i as int].0@ != (#[trigger] pairs@[b]).0@,
            decreases n - j,
        {
            if pairs[i].0 == pairs[j].0 {
                proof {
                    lemma_obj_view(pairs@);
                    assert(obj_view(pairs@)[i as int].0 == obj_view(pairs@)[j as int].0);
                }
                return false;
            }
            j += 1;
        }
        i += 1;
    }
    proof {
        lemma_obj_view(pairs@);
        assert forall|a: int, b: int|
            0 <= a < b < obj_view(pairs@).len() implies (#[trigger] obj_view(pairs@)[a]).0 != (
        #[trigger] obj_view(pairs@)[b]).0 by {
            assert(obj_view(pairs@)[a] == (pairs@[a].0@, val_view(pairs@[a].1)));
            assert(obj_view(pairs@)[b] == (pairs@[b].0@, val_view(pairs@[b].1)));
        }
    }
    true
}

/// Decides whether every value bound in `pairs` is well formed.
pub fn obj_is_wf(pairs: &Vec<(String, Value)>) -> (r: bool)
    ensures
        r == wf_pairs(obj_view(pairs@)),
    decreases pairs@, 0int,
{
    let n = pairs.len();
    let mut i: usize = 0;
    while i < n
        invariant
            i <= n,
            n == pairs@.len(),
            forall|j: int| 0 <= j < i ==> wf(val_view((#[trigger] pairs@[j]).1)),
        decreases n - i,
    {
        if !is_wf(&pairs[i].1) {
            proof {
                lemma_obj_view(pairs@);
                lemma_wf_pairs(obj_view(pairs@));
                assert(obj_view(pairs@)[i as int] == (pairs@[i as int].0@, val_view(
                    pairs@[i as int].1,
                )));
            }
            return false;
        }
        i += 1;
    }
    proof {
        lemma_obj_view(pairs@);
        lemma_wf_pairs(obj_view(pairs@));
        assert forall|j: int| 0 <= j < obj_view(pairs@).len() implies wf(
            (#[trigger] obj_view(pairs@)[j]).1,
        ) by {
            assert(obj_view(pairs@)[j] == (pairs@[j].0@, val_view(pairs@[j].1)));
        }
    }
    true
}

/// A copy of the tree with the same model as `v`.
pub fn value_clone(v: &Value) -> (r: Value)
    ensures
        val_view(r) == val_view(*v),
    decreases *v, 1int,
{
    match v {
        Value::Null => Value::Null,
        Value::Bool(b) => Value::Bool(*b),
        Value::Num(s) => Value::Num(s.clone()),
        Value::Text(s) => Value::Text(s.clone()),
        Value::Arr(items) => Value::Arr(array_clone(items)),
        Value::Obj(pairs) => Value::Obj(object_clone(pairs)),
    }
}

/// A copy of a value sequence, element by element.
pub fn array_clone(items: &Vec<Value>) -> (r: Vec<Value>)
    ensures
        arr_view(r@) == arr_view(items@),
    decreases items@, 0int,
{
    let mut out: Vec<Value> = Vec::new();
    let n = items.len();
    let mut i: usize = 0;
    while i < n
        invariant
            i <= n,
            n == items@.len(),
            out@.len() == i,
            forall|j: int| 0 <= j < i ==> val_view(#[trigger] out@[j]) == val_view(items@[j]),
        decreases n - i,
    {
        out.push(value_clone(&items[i]));
        i += 1;
    }
    proof {
        lemma_arr_view(out@);
        lemma_arr_view(items@);
        assert forall|k: int| 0 <= k < arr_view(out@).len() implies arr_view(out@)[k] == arr_view(
            items@,
        )[k] by {
            assert(arr_view(out@)[k] == val_view(out@[k]));
            assert(arr_view(items@)[k] == val_view(items@[k]));
        }
        assert(arr_view(out@) =~= arr_view(items@));
    }
    out
}

/// A copy of a pair sequence, pair by pair.
pub fn object_clone(pairs: &Vec<(String, Value)>) -> (r: Vec<(String, Value)>)
    ensures
        obj_view(r@) == obj_view(pairs@),
    decreases pairs@, 0int,
{
    let mut out: Vec<(String, Value)> = Vec::new();
    let n = pairs.len();
    let mut i: usize = 0;
    while i < n
        invariant
            i <= n,
            n == pairs@.len(),
            out@.len() == i,
            forall|j: int|
                0 <= j < i ==> ((#[trigger] out@[j]).0@ == pairs@[j].0@ && val_view(out@[j].1)
                    == val_view(pairs@[j].1)),
        decreases n - i,
    {
        let key = pairs[i].0.clone();
        let val = value_clone(&pairs[i].1);
        out.push((key, val));
        i += 1;
    }
    proof {
        lemma_obj_view(out@);
        lemma_obj_view(pairs@);
        assert forall|k: int| 0 <= k < obj_view(out@).len() implies obj_view(out@)[k] == obj_view(
            pairs@,
        )[k] by {
            assert(obj_view(out@)[k] == (out@[k].0@, val_view(out@[k].1)));
            assert(obj_view(pairs@)[k] == (pairs@[k].0@, val_view(pairs@[k].1)));
        }
        assert(obj_view(out@) =~= obj_view(pairs@));
    }
    out
}

} // verus!
