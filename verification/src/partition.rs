use vstd::prelude::*;

verus! {

/// Routing key for one destination object: two events whose keys are
/// structurally equal are eligible to share a batch.
pub struct PartitionKey {
    pub key_prefix: String,
    pub ssekms_key_id: Option<String>,
}

/// Mathematical value of a `PartitionKey`.
#[verifier::ext_equal]
pub struct PartitionKeyV {
    pub key_prefix: Seq<char>,
    pub ssekms_key_id: Option<Seq<char>>,
}

impl View for PartitionKey {
    type V = PartitionKeyV;

    open spec fn view(&self) -> PartitionKeyV {
        PartitionKeyV {
            key_prefix: self.key_prefix@,
            ssekms_key_id: match self.ssekms_key_id {
                Some(ref s) => Some(s@),
                None => None,
            },
        }
    }
}

impl Clone for PartitionKey {
    fn clone(&self) -> (r: Self)
        ensures
            r@ == self@,
    {
        PartitionKey {
            key_prefix: self.key_prefix.clone(),
            ssekms_key_id: clone_opt_string(&self.ssekms_key_id),
        }
    }
}

/// Clones an optional string, keeping its characters.
pub fn clone_opt_string(s: &Option<String>) -> (r: Option<String>)
    ensures
        match (s, &r) {
            (Some(a), Some(b)) => a@ == b@,
            (None, None) => true,
            _ => false,
        },
{
    match s {
        Some(a) => Some(a.clone()),
        None => None,
    }
}

/// Structural equality of two partition keys.
pub fn key_eq(a: &PartitionKey, b: &PartitionKey) -> (r: bool)
    ensures
        r == (a@ == b@),
{
    let prefix_eq = a.key_prefix == b.key_prefix;
    let kms_eq = match (&a.ssekms_key_id, &b.ssekms_key_id) {
        (Some(x), Some(y)) => *x == *y,
        (None, None) => true,
        _ => false,
    };
    let r = prefix_eq && kms_eq;
    proof {
        if r {
            assert(a@ =~= b@);
        }
    }
    r
}

} // verus!
