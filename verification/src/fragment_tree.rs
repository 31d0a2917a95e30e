//! What every fragment carries: the tag of the node that generated it.
use vstd::prelude::*;

verus! {

/// The pseudo-element that generated a fragment, where one did.
#[derive(Clone, Copy, Debug, PartialEq, Eq, Structural)]
pub enum PseudoElement {
    Before,
    After,
}

/// Identifies the DOM node (and pseudo-element) that generated a fragment.
#[derive(Clone, Copy, Debug, PartialEq, Eq, Structural)]
pub struct Tag {
    /// The opaque address of the node.
    pub node: u64,
    pub pseudo: Option<PseudoElement>,
}

/// Flags that box construction sets on a fragment.
#[derive(Clone, Copy, Debug, PartialEq, Eq, Structural)]
pub struct FragmentFlags {
    pub bits: u8,
}

impl FragmentFlags {
    pub fn empty() -> (r: FragmentFlags)
        ensures
            r.bits == 0,
    {
        FragmentFlags { bits: 0 }
    }
}

/// What box construction knows of the node behind a fragment.
#[derive(Clone, Copy, Debug, PartialEq, Eq, Structural)]
pub struct BaseFragmentInfo {
    pub tag: Tag,
    pub flags: FragmentFlags,
}

/// The part that all fragments generated by a node share.
#[derive(Clone, Copy, Debug, PartialEq, Eq, Structural)]
pub struct BaseFragment {
    /// The tag of the generating node; `None` for an anonymous fragment.
    pub tag: Option<Tag>,
    pub flags: FragmentFlags,
}

impl BaseFragment {
    /// The base of a fragment that no node generated.
    pub open spec fn spec_anonymous() -> BaseFragment {
        BaseFragment { tag: None, flags: FragmentFlags { bits: 0 } }
    }

    /// The base of the fragment of a node.
    pub open spec fn spec_from_info(info: BaseFragmentInfo) -> BaseFragment {
        BaseFragment { tag: Some(info.tag), flags: info.flags }
    }

    pub fn anonymous() -> (r: BaseFragment)
        ensures
            r == BaseFragment::spec_anonymous(),
    {
        BaseFragment { tag: None, flags: FragmentFlags::empty() }
    }
}

impl From<BaseFragmentInfo> for BaseFragment {
    fn from(info: BaseFragmentInfo) -> (r: BaseFragment) {
        BaseFragment { tag: Some(info.tag), flags: info.flags }
    }
}

impl vstd::std_specs::convert::FromSpecImpl<BaseFragmentInfo> for BaseFragment {
    open spec fn obeys_from_spec() -> bool {
        true
    }

    open spec fn from_spec(info: BaseFragmentInfo) -> BaseFragment {
        BaseFragment::spec_from_info(info)
    }
}

} // verus!
