//! Solids: sets of shells, accepted only when every shell is a closed,
//! connected 2-manifold. No partially-valid solid ever exists.

use vstd::prelude::*;

use crate::error::TopologyError;
use crate::registry::Registry;
use crate::shell::{shell_closed, shell_connected, Shell};

verus! {

/// A shell may bound a solid: it is a closed 2-manifold and a single
/// connected component.
pub open spec fn shell_admissible(s: Shell) -> bool {
    shell_closed(s.faces@) && shell_connected(s.faces@)
}

/// An accepted solid. The only way to obtain one is the fallible
/// constructor, so every solid's shells are closed and connected.
#[derive(Clone, Debug)]
pub struct Solid {
    /// The boundary shells.
    pub shells: Vec<Shell>,
}

impl Solid {
    /// Every shell is well-formed in `reg`.
    pub open spec fn wf(self, reg: Registry) -> bool {
        forall|i: int| 0 <= i < self.shells@.len() ==> (#[trigger] self.shells@[i]).wf(reg)
    }

    /// Accept `shells` as the boundary of a solid. Succeeds iff every shell
    /// is closed and connected; otherwise fails with `OpenShell(k)` naming
    /// the first shell that is not, and no solid value is produced.
    pub fn try_new(shells: Vec<Shell>) -> (r: Result<Solid, TopologyError>)
        ensures
            match r {
                Ok(solid) => {
                    &&& solid.shells@ == shells@
                    &&& forall|k: int|
                        0 <= k < shells@.len() ==> shell_admissible(#[trigger] shells@[k])
                },
                Err(e) => {
                    exists|k: usize|
                        {
                            &&& (k as int) < shells@.len()
                            &&& !shell_admissible(#[trigger] shells@[k as int])
                            &&& forall|j: int|
                                0 <= j < k ==> shell_admissible(#[trigger] shells@[j])
                            &&& e == TopologyError::OpenShell(k)
                        }
                },
            },
    {
        let mut k: usize = 0;
        while k < shells.len()
            invariant
                k <= shells@.len(),
                forall|j: int| 0 <= j < k ==> shell_admissible(#[trigger] shells@[j]),
            decreases shells@.len() - k,
        {
            let closed = shells[k].is_closed();
            let connected = shells[k].is_connected();
            if !(closed && connected) {
                return Err(TopologyError::OpenShell(k));
            }
            k += 1;
        }
        Ok(Solid { shells })
    }

    /// The number of boundary shells.
    pub fn shell_count(&self) -> (r: usize)
        ensures
            r == self.shells@.len(),
    {
        self.shells.len()
    }

    /// The boundary shell at position `i`.
    pub fn shell(&self, i: usize) -> (r: &Shell)
        requires
            i < self.shells@.len(),
        ensures
            *r == self.shells@[i as int],
    {
        &self.shells[i]
    }
}

impl Shell {
    /// Promote this shell to a one-shell solid, via the same acceptance
    /// check as `Solid::try_new`. Yields nothing unless the shell is closed
    /// and connected.
    pub fn into_solid(self) -> (r: Option<Solid>)
        ensures
            match r {
                Some(solid) => {
                    &&& solid.shells@.len() == 1
                    &&& solid.shells@[0] == self
                    &&& shell_admissible(self)
                },
                None => !shell_admissible(self),
            },
    {
        let closed = self.is_closed();
        let connected = self.is_connected();
        if !(closed && connected) {
            return None;
        }
        let mut shells: Vec<Shell> = Vec::new();
        shells.push(self);
        match Solid::try_new(shells) {
            Ok(solid) => Some(solid),
            Err(_) => {
                proof {
                    assert(false);
                }
                None
            },
        }
    }
}

/// Promoting a single shell succeeds exactly when that shell is closed and
/// connected: the acceptance check of a one-shell solid is the shell's own
/// closure-and-connectivity test.
pub proof fn lemma_single_shell_acceptance(s: Shell, shells: Seq<Shell>)
    requires
        shells.len() == 1,
        shells[0] == s,
    ensures
        (forall|k: int| 0 <= k < shells.len() ==> shell_admissible(#[trigger] shells[k]))
            <==> (shell_closed(s.faces@) && shell_connected(s.faces@)),
{
    if shell_closed(s.faces@) && shell_connected(s.faces@) {
        assert forall|k: int| 0 <= k < shells.len() implies shell_admissible(
            #[trigger] shells[k],
        ) by {
            assert(shells[k] == s);
        }
    }
}

} // verus!
