use vstd::prelude::*;

verus! {

/// Whether `v` is strictly ascending.
pub open spec fn ascending(v: Seq<usize>) -> bool {
    forall|i: int, j: int| 0 <= i < j < v.len() ==> v[i] < v[j]
}

/// Whether `v` lists exactly the members of `s`, in ascending order.
pub open spec fn lists_in_order(v: Seq<usize>, s: Set<int>) -> bool {
    &&& ascending(v)
    &&& forall|i: int| 0 <= i < v.len() ==> s.contains(#[trigger] v[i] as int)
    &&& forall|p: int| #[trigger] s.contains(p) ==> exists|i: int| 0 <= i < v.len() && v[i] == p
}

/// The positions at which `flags` holds `true`.
pub open spec fn flag_set(flags: Seq<bool>) -> Set<int> {
    Set::new(|i: int| 0 <= i < flags.len() && flags[i])
}

/// The ascending positions at which `flags` holds `true`.
pub fn positions_where(flags: &[bool]) -> (r: Vec<usize>)
    ensures
        lists_in_order(r@, flag_set(flags@)),
{
    let mut positions: Vec<usize> = Vec::new();
    let mut i: usize = 0;
    while i < flags.len()
        invariant
            0 <= i <= flags.len(),
            forall|a: int, b: int| 0 <= a < b < positions.len() ==> positions@[a] < positions@[b],
            forall|j: int| 0 <= j < positions.len() ==> positions@[j] < i,
            forall|j: int| 0 <= j < positions.len() ==> flag_set(flags@).contains(#[trigger] positions@[j] as int),
            forall|p: int| 0 <= p < i && #[trigger] flag_set(flags@).contains(p) ==> exists|j: int| 0 <= j < positions.len() && positions@[j] == p,
        decreases flags.len() - i,
    {
        if flags[i] {
            let ghost before = positions@;
            positions.push(i);
            assert forall|p: int| 0 <= p <= i && #[trigger] flag_set(flags@).contains(p) implies exists|j: int| 0 <= j < positions.len() && positions@[j] == p by {
                if p < i {
                    let j = choose|j: int| 0 <= j < before.len() && before[j] == p;
                    assert(positions@[j] == p);
                } else {
                    assert(positions@[positions.len() - 1] == p);
                }
            }
        }
        i = i + 1;
    }
    positions
}

} // verus!
