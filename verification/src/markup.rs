use vstd::prelude::*;

verus! {

/// The markup surface for declaring one menu item in a component: the
/// element's tag name, its namespace, and its two recognized attributes,
/// each given as name, namespace and volatility.
#[allow(non_camel_case_types)]
pub struct item;

impl item {
    pub const TAG_NAME: &'static str = "item";

    pub const NAME_SPACE: Option<&'static str> = None;

    #[allow(non_upper_case_globals)]
    pub const accelerator: (&'static str, Option<&'static str>, bool) = ("accelerator", None, false);

    #[allow(non_upper_case_globals)]
    pub const enabled: (&'static str, Option<&'static str>, bool) = ("enabled", None, false);
}

} // verus!
