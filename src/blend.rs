use vstd::prelude::*;

verus! {

/// How a displaced sample coordinate becomes a scalar position on the color ramp.
#[derive(Clone, Copy, Debug, PartialEq, Eq, Structural)]
pub enum BlendMode {
    Smooth,
    Radial,
    Angular,
    Diamond,
    Vortex,
}

/// The mode that a selector string names; anything unrecognized selects `Smooth`.
pub open spec fn mode_of(s: Seq<char>) -> BlendMode {
    if s == "radial"@ {
        BlendMode::Radial
    } else if s == "angular"@ {
        BlendMode::Angular
    } else if s == "diamond"@ {
        BlendMode::Diamond
    } else if s == "vortex"@ {
        BlendMode::Vortex
    } else {
        BlendMode::Smooth
    }
}

/// Whether two strings hold the same characters.
fn same_chars(a: &str, b: &str) -> (r: bool)
    ensures
        r == (a@ == b@),
{
    let n = a.unicode_len();
    let m = b.unicode_len();
    if n != m {
        return false;
    }
    let mut i: usize = 0;
    while i < n
        invariant
            n == a@.len(),
            m == b@.len(),
            n == m,
            i <= n,
            forall|k: int| 0 <= k < i ==> a@[k] == b@[k],
        decreases n - i,
    {
        if a.get_char(i) != b.get_char(i) {
            return false;
        }
        i = i + 1;
    }
    assert(a@ =~= b@);
    true
}

impl BlendMode {
    /// Resolves a selector string to its mode, falling back to `Smooth`.
    pub fn from_string(s: &str) -> (r: BlendMode)
        ensures
            r == mode_of(s@),
            s@ != "radial"@ && s@ != "angular"@ && s@ != "diamond"@ && s@ != "vortex"@ ==> r
                == BlendMode::Smooth,
    {
        if same_chars(s, "radial") {
            BlendMode::Radial
        } else if same_chars(s, "angular") {
            BlendMode::Angular
        } else if same_chars(s, "diamond") {
            BlendMode::Diamond
        } else if same_chars(s, "vortex") {
            BlendMode::Vortex
        } else {
            BlendMode::Smooth
        }
    }
}

} // verus!
