use vstd::prelude::*;

use crate::text::str_eq;

verus! {

/// The routing kernels that the router can run a reach with.
#[derive(Clone, Copy, Debug, PartialEq, Eq, Structural)]
pub enum MuskingumCungeKernel {
    RouteRs,
    TRouteModernized,
    TRouteLegacy,
    CMuskingumCunge,
}

/// The name under which a kernel is shown and chosen on the command line.
pub open spec fn kernel_name(k: MuskingumCungeKernel) -> Seq<char> {
    match k {
        MuskingumCungeKernel::RouteRs => "route-rs"@,
        MuskingumCungeKernel::TRouteModernized => "t-route-modernized"@,
        MuskingumCungeKernel::TRouteLegacy => "t-route-legacy"@,
        MuskingumCungeKernel::CMuskingumCunge => "c-muskingum-cunge"@,
    }
}

/// The kernel that a name chooses, where it names one.
pub open spec fn kernel_named(name: Seq<char>) -> Option<MuskingumCungeKernel> {
    if name == "route-rs"@ {
        Some(MuskingumCungeKernel::RouteRs)
    } else if name == "t-route-modernized"@ {
        Some(MuskingumCungeKernel::TRouteModernized)
    } else if name == "t-route-legacy"@ {
        Some(MuskingumCungeKernel::TRouteLegacy)
    } else if name == "c-muskingum-cunge"@ {
        Some(MuskingumCungeKernel::CMuskingumCunge)
    } else {
        None
    }
}

/// A kernel's name chooses that kernel again, and distinct kernels have distinct names.
pub proof fn lemma_kernel_name_round_trip(k: MuskingumCungeKernel)
    ensures
        kernel_named(kernel_name(k)) == Some(k),
{
    reveal_strlit("route-rs");
    reveal_strlit("t-route-modernized");
    reveal_strlit("t-route-legacy");
    reveal_strlit("c-muskingum-cunge");
    assert("route-rs"@.len() == 8);
    assert("t-route-modernized"@.len() == 18);
    assert("t-route-legacy"@.len() == 14);
    assert("c-muskingum-cunge"@.len() == 17);
}

impl MuskingumCungeKernel {
    /// The kernel that `name` names (as the command line writes it), or `None`.
    pub fn from_name(name: &str) -> (r: Option<MuskingumCungeKernel>)
        ensures
            r == kernel_named(name@),
    {
        if str_eq(name, "route-rs") {
            Some(MuskingumCungeKernel::RouteRs)
        } else if str_eq(name, "t-route-modernized") {
            Some(MuskingumCungeKernel::TRouteModernized)
        } else if str_eq(name, "t-route-legacy") {
            Some(MuskingumCungeKernel::TRouteLegacy)
        } else if str_eq(name, "c-muskingum-cunge") {
            Some(MuskingumCungeKernel::CMuskingumCunge)
        } else {
            None
        }
    }

    /// The kernel's display name.
    pub fn name(self) -> (r: &'static str)
        ensures
            r@ == kernel_name(self),
    {
        match self {
            MuskingumCungeKernel::RouteRs => "route-rs",
            MuskingumCungeKernel::TRouteModernized => "t-route-modernized",
            MuskingumCungeKernel::TRouteLegacy => "t-route-legacy",
            MuskingumCungeKernel::CMuskingumCunge => "c-muskingum-cunge",
        }
    }
}

} // verus!
