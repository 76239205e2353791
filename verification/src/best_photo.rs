//! The query side of choosing the best photo of a group.
use vstd::prelude::*;

verus! {

/// `count` question marks separated by commas: the placeholders of an `IN (...)`
/// list.
pub open spec fn placeholder_list(count: nat) -> Seq<char>
    decreases count,
{
    if count == 0 {
        Seq::empty()
    } else if count == 1 {
        seq!['?']
    } else {
        placeholder_list((count - 1) as nat) + seq![',', '?']
    }
}

/// The placeholders for binding `count` values.
pub fn placeholders(count: usize) -> (r: String)
    ensures
        r@ == placeholder_list(count as nat),
{
    let mut out: Vec<char> = Vec::new();
    let mut k: usize = 0;
    while k < count
        invariant
            k <= count,
            out@ == placeholder_list(k as nat),
        decreases count - k,
    {
        if k > 0 {
            out.push(',');
        }
        out.push('?');
        k = k + 1;
        proof {
            assert(out@ =~= placeholder_list(k as nat));
        }
    }
    crate::text::string_from_chars(&out)
}

} // verus!
