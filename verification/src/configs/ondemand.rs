//! The settings of the `ondemand` module.
use vstd::prelude::*;

verus! {

/// The settings of the `ondemand` module.
#[derive(Clone, Copy, Debug, PartialEq, Eq)]
pub struct OndemandConfig<'a> {
    pub disabled: bool,
    pub format: &'a str,
    pub approve_format: &'a str,
    pub item_separator: &'a str,
    pub scan_depth: usize,
}

impl<'a> Default for OndemandConfig<'a> {
    fn default() -> (r: OndemandConfig<'a>)
        ensures
            !r.disabled,
            r.format@ == "$items"@,
            r.approve_format@
                == "[$count new config$suffix (starship allowlist add)](yellow bold) "@,
            r.item_separator@ == ""@,
            r.scan_depth == 8,
    {
        OndemandConfig {
            disabled: false,
            format: "$items",
            approve_format: "[$count new config$suffix (starship allowlist add)](yellow bold) ",
            item_separator: "",
            scan_depth: 8,
        }
    }
}

} // verus!
