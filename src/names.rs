use vstd::prelude::*;

verus! {

/// `name` occurs among `available`.
pub open spec fn names_contain(available: Seq<String>, name: Seq<char>) -> bool {
    exists|i: int| 0 <= i < available.len() && #[trigger] available[i]@ == name
}

/// Whether every name of `required` (an extension or a layer) occurs among
/// the names the driver reports as `available`.
pub fn has_all_names(required: &[String], available: &[String]) -> (r: bool)
    ensures
        r == forall|i: int|
            0 <= i < required@.len() ==> names_contain(available@, #[trigger] required@[i]@),
{
    let mut i: usize = 0;
    while i < required.len()
        invariant
            i <= required@.len(),
            forall|k: int| 0 <= k < i ==> names_contain(available@, #[trigger] required@[k]@),
        decreases required.len() - i,
    {
        let mut j: usize = 0;
        let mut found: bool = false;
        while j < available.len()
            invariant
                j <= available@.len(),
                i < required@.len(),
                found ==> names_contain(available@, required@[i as int]@),
                !found ==> forall|k: int| 0 <= k < j ==> #[trigger] available@[k]@ != required@[i as int]@,
            decreases available.len() - j,
        {
            if available[j] == required[i] {
                found = true;
            }
            j = j + 1;
        }
        if !found {
            proof {
                assert(!names_contain(available@, required@[i as int]@));
            }
            return false;
        }
        i = i + 1;
    }
    true
}

} // verus!
