use vstd::prelude::*;
use crate::graph::Graph;
use crate::key::{Instance, TypeKey};

verus! {

/// Why a dependency could not be found along a search chain.
#[derive(Clone, Copy, Debug, PartialEq, Eq, Structural)]
pub enum LookupError {
    /// No graph of the chain holds the key.
    Unresolved,
    /// The key names no qualifier, no graph holds it unqualified, and two or
    /// more distinct qualified variants of its base are on offer.
    Ambiguous,
}

/// The views of the graphs of a search chain, in order.
pub open spec fn chain_view(chain: Seq<&Graph>) -> Seq<Map<TypeKey, Instance>> {
    chain.map_values(|g: &Graph| g@)
}

/// The instance held under `k` by the first graph from position `i` on that
/// holds the key.
pub open spec fn find_from(chain: Seq<Map<TypeKey, Instance>>, k: TypeKey, i: int) -> Option<Instance>
    decreases chain.len() - i,
{
    if i < 0 || i >= chain.len() {
        None
    } else if chain[i].contains_key(k) {
        Some(chain[i][k])
    } else {
        find_from(chain, k, i + 1)
    }
}

/// `c` is a qualified variant of `base` that some graph of the chain holds.
pub open spec fn is_candidate(chain: Seq<Map<TypeKey, Instance>>, base: u64, c: TypeKey) -> bool {
    c.base == base && c.qualifier is Some && exists|i: int|
        0 <= i < chain.len() && #[trigger] chain[i].contains_key(c)
}

/// An unqualified request that several qualified providers could answer.
pub open spec fn ambiguous(chain: Seq<Map<TypeKey, Instance>>, k: TypeKey) -> bool {
    k.qualifier is None && exists|a: TypeKey, b: TypeKey|
        a != b && #[trigger] is_candidate(chain, k.base, a) && #[trigger] is_candidate(chain, k.base, b)
}

/// What looking `k` up along `chain` gives: the first match, else an error.
pub open spec fn lookup_spec(chain: Seq<Map<TypeKey, Instance>>, k: TypeKey) -> Result<Instance, LookupError> {
    match find_from(chain, k, 0) {
        Some(v) => Ok(v),
        None => if ambiguous(chain, k) {
            Err(LookupError::Ambiguous)
        } else {
            Err(LookupError::Unresolved)
        },
    }
}

/// Every graph of the chain is well formed.
pub open spec fn chain_wf(chain: Seq<&Graph>) -> bool {
    forall|i: int| 0 <= i < chain.len() ==> (#[trigger] chain[i]).wf()
}

/// Searches the graphs of `chain` in order and returns the first instance
/// stored under `key`.
pub fn lookup(chain: &Vec<&Graph>, key: TypeKey) -> (r: Result<Instance, LookupError>)
    requires
        chain_wf(chain@),
    ensures
        r == lookup_spec(chain_view(chain@), key),
{
    let ghost cv = chain_view(chain@);
    let mut i: usize = 0;
    while i < chain.len()
        invariant
            0 <= i <= chain@.len(),
            cv == chain_view(chain@),
            chain_wf(chain@),
            find_from(cv, key, 0) == find_from(cv, key, i as int),
        decreases chain@.len() - i,
    {
        let g: &Graph = chain[i];
        assert(cv[i as int] == g@);
        match g.get(key) {
            Some(v) => {
                return Ok(v);
            },
            None => {},
        }
        i = i + 1;
    }
    if key.qualifier.is_none() && has_two_variants(chain, key.base) {
        Err(LookupError::Ambiguous)
    } else {
        Err(LookupError::Unresolved)
    }
}

/// Whether the chain offers two distinct qualified variants of `base`.
fn has_two_variants(chain: &Vec<&Graph>, base: u64) -> (r: bool)
    requires
        chain_wf(chain@),
    ensures
        r == exists|a: TypeKey, b: TypeKey| a != b
            && #[trigger] is_candidate(chain_view(chain@), base, a)
            && #[trigger] is_candidate(chain_view(chain@), base, b),
{
    let ghost cv = chain_view(chain@);
    let mut first: Option<TypeKey> = None;
    let mut i: usize = 0;
    while i < chain.len()
        invariant
            0 <= i <= chain@.len(),
            cv == chain_view(chain@),
            chain_wf(chain@),
            first matches Some(a) ==> is_candidate(cv, base, a),
            forall|c: TypeKey, j: int| 0 <= j < i && #[trigger] cv[j].contains_key(c) && c.base == base
                && c.qualifier is Some ==> first == Some(c),
        decreases chain@.len() - i,
    {
        let g: &Graph = chain[i];
        assert(cv[i as int] == g@);
        match g.qualified_variant(base, first) {
            Some(a) => {
                if first.is_some() {
                    let ghost b = first->0;
                    assert(is_candidate(cv, base, a));
                    assert(a != b && is_candidate(cv, base, a) && is_candidate(cv, base, b));
                    return true;
                }
                assert(is_candidate(cv, base, a));
                match g.qualified_variant(base, Some(a)) {
                    Some(b) => {
                        assert(is_candidate(cv, base, b));
                        assert(a != b && is_candidate(cv, base, a) && is_candidate(cv, base, b));
                        return true;
                    },
                    None => {
                        first = Some(a);
                    },
                }
            },
            None => {},
        }
        i = i + 1;
    }
    proof {
        assert forall|a: TypeKey, b: TypeKey| a != b && is_candidate(cv, base, a)
            implies !is_candidate(cv, base, b) by {
            if is_candidate(cv, base, b) {
                let ja = choose|j: int| 0 <= j < cv.len() && #[trigger] cv[j].contains_key(a);
                let jb = choose|j: int| 0 <= j < cv.len() && #[trigger] cv[j].contains_key(b);
            }
        }
    }
    false
}

} // verus!
