use vstd::prelude::*;

verus! {

/// The queue families a device uses: one that runs graphics work and one
/// that presents to the surface (possibly the same).
#[derive(Clone, Copy, Debug, PartialEq, Eq, Structural)]
pub struct QueueFamilyIndices {
    pub graphics_family: Option<u32>,
    pub present_family: Option<u32>,
}

/// The last index among the first `n` entries of `s` that holds `true`.
pub open spec fn last_true(s: Seq<bool>, n: int) -> Option<u32>
    decreases n,
{
    if n <= 0 {
        None
    } else if s[n - 1] {
        Some((n - 1) as u32)
    } else {
        last_true(s, n - 1)
    }
}

impl QueueFamilyIndices {
    /// Chooses the families from what each family of the device offers:
    /// `graphics[i]` says that family `i` runs graphics work, `present[i]`
    /// that it can present to the surface. The last family that qualifies is
    /// chosen for each role.
    pub fn find(graphics: &[bool], present: &[bool]) -> (r: Self)
        requires
            graphics.len() <= u32::MAX,
            present.len() <= u32::MAX,
        ensures
            r.graphics_family == last_true(graphics@, graphics@.len() as int),
            r.present_family == last_true(present@, present@.len() as int),
    {
        QueueFamilyIndices { graphics_family: last_index_of_true(graphics), present_family: last_index_of_true(present) }
    }
}

fn last_index_of_true(s: &[bool]) -> (r: Option<u32>)
    requires
        s.len() <= u32::MAX,
    ensures
        r == last_true(s@, s@.len() as int),
{
    let mut found: Option<u32> = None;
    let mut i: usize = 0;
    while i < s.len()
        invariant
            i <= s@.len() <= u32::MAX,
            found == last_true(s@, i as int),
        decreases s.len() - i,
    {
        if s[i] {
            found = Some(i as u32);
        }
        i = i + 1;
    }
    found
}

} // verus!
