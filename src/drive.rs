//! Finding the camera's storage card among the mounted drives.
//!
//! The drives are polled. Each pass looks only at the drives that were not
//! mounted at the previous pass, so a card that is swapped under the same
//! letter is still seen.

use vstd::prelude::*;

verus! {

/// The letter of drive number `i`, counting from `A`.
pub open spec fn drive_letter(i: int) -> char {
    seq!['A', 'B', 'C', 'D', 'E', 'F', 'G', 'H', 'I', 'J', 'K', 'L', 'M', 'N', 'O', 'P', 'Q', 'R', 'S', 'T', 'U', 'V', 'W', 'X', 'Y', 'Z'][i]
}

/// The letters of the drives among the first `k` whose bit is set in `mask`,
/// bit 0 standing for `A`.
pub open spec fn mounted_letters(mask: u32, k: nat) -> Seq<char>
    decreases k,
{
    if k == 0 {
        seq![]
    } else {
        let rest = mounted_letters(mask, (k - 1) as nat);
        if (mask >> ((k - 1) as u32)) & 1 == 1 {
            rest.push(drive_letter(k - 1))
        } else {
            rest
        }
    }
}

/// The letters of the drives whose bit is set in a mask of logical drives,
/// in order from `A` to `Z`.
pub fn drives_from_mask(mask: u32) -> (r: Vec<char>)
    ensures
        r@ == mounted_letters(mask, 26),
{
    let letters: [char; 26] = [
        'A', 'B', 'C', 'D', 'E', 'F', 'G', 'H', 'I', 'J', 'K', 'L', 'M',
        'N', 'O', 'P', 'Q', 'R', 'S', 'T', 'U', 'V', 'W', 'X', 'Y', 'Z',
    ];
    assert(letters@ == seq!['A', 'B', 'C', 'D', 'E', 'F', 'G', 'H', 'I', 'J', 'K', 'L', 'M', 'N', 'O', 'P', 'Q', 'R', 'S', 'T', 'U', 'V', 'W', 'X', 'Y', 'Z']);
    let mut drives: Vec<char> = Vec::new();
    let mut i: u32 = 0;
    while i < 26
        invariant
            i <= 26,
            drives@ == mounted_letters(mask, i as nat),
            forall|j: int| 0 <= j < 26 ==> letters@[j] == drive_letter(j),
        decreases 26 - i,
    {
        if (mask >> i) & 1 == 1 {
            drives.push(letters[i as usize]);
        }
        i += 1;
    }
    drives
}

/// The drives of `mounted` that are not in `checked`, in their order.
pub open spec fn unchecked(mounted: Seq<char>, checked: Seq<char>) -> Seq<char>
    decreases mounted.len(),
{
    if mounted.len() == 0 {
        seq![]
    } else {
        let rest = unchecked(mounted.drop_last(), checked);
        if checked.contains(mounted.last()) {
            rest
        } else {
            rest.push(mounted.last())
        }
    }
}

/// The drives seen at the previous pass.
pub struct DriveScan {
    pub checked: Vec<char>,
}

impl DriveScan {
    /// A scan that has seen no drive yet.
    pub fn new() -> (r: DriveScan)
        ensures
            r.checked@.len() == 0,
    {
        DriveScan { checked: Vec::new() }
    }

    /// Starts a pass over the drives mounted now: returns the recordings
    /// folders to look for, on the drives not seen at the previous pass, and
    /// remembers all the drives for the next pass.
    pub fn pass(&mut self, mounted: Vec<char>) -> (r: Vec<String>)
        ensures
            r@.len() == unchecked(mounted@, old(self).checked@).len(),
            forall|i: int|
                0 <= i < r@.len() ==> (#[trigger] r@[i])@ == folder_on(
                    unchecked(mounted@, old(self).checked@)[i],
                ),
            final(self).checked@ == mounted@,
    {
        let mut fresh: Vec<String> = Vec::new();
        let mut i: usize = 0;
        while i < mounted.len()
            invariant
                i <= mounted@.len(),
                fresh@.len() == unchecked(mounted@.take(i as int), self.checked@).len(),
                forall|j: int|
                    0 <= j < fresh@.len() ==> (#[trigger] fresh@[j])@ == folder_on(
                        unchecked(mounted@.take(i as int), self.checked@)[j],
                    ),
            decreases mounted@.len() - i,
        {
            let d = mounted[i];
            proof {
                assert(mounted@.take(i + 1).drop_last() =~= mounted@.take(i as int));
            }
            if !contains_char(&self.checked, d) {
                fresh.push(recordings_folder(d));
            }
            i += 1;
        }
        assert(mounted@.take(i as int) =~= mounted@);
        self.checked = mounted;
        fresh
    }
}

/// Whether `d` is in `v`.
fn contains_char(v: &Vec<char>, d: char) -> (r: bool)
    ensures
        r == v@.contains(d),
{
    let mut i: usize = 0;
    while i < v.len()
        invariant
            i <= v@.len(),
            forall|j: int| 0 <= j < i ==> v@[j] != d,
        decreases v@.len() - i,
    {
        if v[i] == d {
            return true;
        }
        i += 1;
    }
    false
}

/// The recordings folder on drive `d`: `d:\CARDV\Movie`.
pub open spec fn folder_on(d: char) -> Seq<char> {
    seq![d, ':', '\\', 'C', 'A', 'R', 'D', 'V', '\\', 'M', 'o', 'v', 'i', 'e']
}

/// Relies on `char::to_string`, which writes the character alone.
#[verifier::external_body]
fn char_string(d: char) -> (r: String)
    ensures
        r@ == seq![d],
{
    d.to_string()
}

/// The recordings folder on drive `d`.
fn recordings_folder(d: char) -> (r: String)
    ensures
        r@ == folder_on(d),
{
    let r = char_string(d).concat(":\\CARDV\\Movie");
    proof {
        reveal_strlit(":\\CARDV\\Movie");
    }
    assert(r@ =~= folder_on(d));
    r
}

} // verus!
