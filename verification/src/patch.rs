use vstd::prelude::*;
use crate::value::{SpecVal, Value, val_view};

verus! {

/// One of the three supported edit verbs. The target vocabulary also knows
/// `move`, `copy` and `test`, but those are never produced here, so the
/// variant set is closed over the three active members.
#[derive(Clone, Copy, Debug, PartialEq, Eq, Structural)]
pub enum PatchOp {
    Add,
    Remove,
    Replace,
}

/// The wire name of an edit verb.
pub open spec fn op_name(op: PatchOp) -> Seq<char> {
    match op {
        PatchOp::Add => "add"@,
        PatchOp::Remove => "remove"@,
        PatchOp::Replace => "replace"@,
    }
}

impl PatchOp {
    /// The wire name of this verb.
    pub fn as_str(&self) -> (r: &'static str)
        ensures
            r@ == op_name(*self),
    {
        match self {
            PatchOp::Add => "add",
            PatchOp::Remove => "remove",
            PatchOp::Replace => "replace",
        }
    }
}

/// The model of one patch record.
pub struct SpecPatch {
    pub op: PatchOp,
    pub path: Seq<char>,
    pub value: Option<SpecVal>,
    pub old_value: Option<SpecVal>,
}

/// One edit operation: a verb, the path it addresses, the new value (present
/// for Add and Replace), and the value being removed or replaced (present for
/// Remove and Replace; kept for diagnostics only, never serialized).
#[derive(Debug, PartialEq, Eq)]
pub struct Patch {
    pub op: PatchOp,
    pub path: String,
    pub value: Option<Value>,
    pub old_value: Option<Value>,
}

/// The model of an optional value.
pub open spec fn opt_view(v: Option<Value>) -> Option<SpecVal> {
    match v {
        Some(x) => Some(val_view(x)),
        None => None,
    }
}

impl View for Patch {
    type V = SpecPatch;

    open spec fn view(&self) -> SpecPatch {
        SpecPatch {
            op: self.op,
            path: self.path@,
            value: opt_view(self.value),
            old_value: opt_view(self.old_value),
        }
    }
}

impl DeepView for Patch {
    type V = SpecPatch;

    open spec fn deep_view(&self) -> SpecPatch {
        self.view()
    }
}

/// The models of a sequence of patch records.
pub open spec fn patches_view(s: Seq<Patch>) -> Seq<SpecPatch> {
    Seq::new(s.len(), |i: int| s[i]@)
}

/// Pushing one record appends its model to the sequence of models.
pub proof fn lemma_patches_push(s: Seq<Patch>, p: Patch)
    ensures
        patches_view(s.push(p)) == patches_view(s) + seq![p@],
{
    assert(patches_view(s.push(p)) =~= patches_view(s) + seq![p@]);
}

} // verus!
