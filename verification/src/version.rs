//! The numeric model of a plugin version: up to four dot-separated fields,
//! of which the first two are always present.

use vstd::prelude::*;
use crate::text::{dec_str, u32_to_string};

verus! {

/// A version number `major.minor[.patch[.build]]`.
///
/// A well-formed tuple never skips a field and then specifies a later one:
/// `patch` is absent only if `build` is also absent.
#[derive(Clone, Copy, PartialEq, Eq, Structural, Debug)]
pub struct VersionTuple {
    pub major: u32,
    pub minor: u32,
    pub patch: Option<u32>,
    pub build: Option<u32>,
}

impl VersionTuple {
    /// The tuple does not skip `patch` while specifying `build`.
    pub open spec fn wf(self) -> bool {
        self.patch is None ==> self.build is None
    }

    /// The canonical string form: the present fields, dot-joined.
    pub open spec fn canonical(self) -> Seq<char> {
        dec_str(self.major as nat) + seq!['.'] + dec_str(self.minor as nat)
            + (match self.patch {
                Some(p) => seq!['.'] + dec_str(p as nat),
                None => Seq::<char>::empty(),
            })
            + (match self.build {
                Some(b) => seq!['.'] + dec_str(b as nat),
                None => Seq::<char>::empty(),
            })
    }

    /// Renders the canonical dot-joined string form, e.g. `6.1.9`.
    pub fn stringify(&self) -> (s: String)
        ensures
            s@ == self.canonical(),
    {
        let mut s = u32_to_string(self.major);
        s.append(".");
        let minor_s = u32_to_string(self.minor);
        s.append(minor_s.as_str());
        if let Some(p) = self.patch {
            s.append(".");
            let p_s = u32_to_string(p);
            s.append(p_s.as_str());
        }
        if let Some(b) = self.build {
            s.append(".");
            let b_s = u32_to_string(b);
            s.append(b_s.as_str());
        }
        proof {
            reveal_strlit(".");
            assert(s@ =~= self.canonical());
        }
        s
    }
}

} // verus!
