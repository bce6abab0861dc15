use vstd::prelude::*;

use crate::strs::{starts_with, str_eq};

verus! {

pub open spec fn has_prefix(s: Seq<char>, p: Seq<char>) -> bool {
    p.len() <= s.len() && s.take(p.len() as int) == p
}

/// The target is a web address.
pub open spec fn is_web_address(target: Seq<char>) -> bool {
    has_prefix(target, "http://"@) || has_prefix(target, "https://"@)
}

/// A target opens in the browser when the mode says so or when it is a web address.
pub open spec fn opens_in_browser(target: Seq<char>, mode: Option<Seq<char>>) -> bool {
    mode == Some("browser"@) || is_web_address(target)
}

pub open spec fn opt_view(mode: Option<&str>) -> Option<Seq<char>> {
    match mode {
        Some(m) => Some(m@),
        None => None,
    }
}

/// Whether `target` opens in the browser (rather than running in a terminal).
pub fn is_browser_target(target: &str, mode: Option<&str>) -> (r: bool)
    ensures
        r == opens_in_browser(target@, opt_view(mode)),
{
    let forced = match mode {
        Some(m) => str_eq(m, "browser"),
        None => false,
    };
    forced || starts_with(target, "http://") || starts_with(target, "https://")
}

/// What launching a target does.
pub enum LaunchPlan {
    /// Open this web address in the browser.
    Browser(String),
    /// Suspend the dashboard and run this shell command.
    Terminal(String),
}

/// The address a browser target opens: the target itself when it is a web
/// address, or else the target behind `https://`.
pub open spec fn browser_address(target: Seq<char>) -> Seq<char> {
    if is_web_address(target) {
        target
    } else {
        "https://"@ + target
    }
}

/// Decides how a target is launched.
pub fn plan_launch(target: &str, mode: Option<&str>) -> (p: LaunchPlan)
    ensures
        opens_in_browser(target@, opt_view(mode)) ==> (p matches LaunchPlan::Browser(url) && url@
            == browser_address(target@)),
        !opens_in_browser(target@, opt_view(mode)) ==> (p matches LaunchPlan::Terminal(cmd) && cmd@ == target@),
{
    if is_browser_target(target, mode) {
        let url = if starts_with(target, "http://") || starts_with(target, "https://") {
            String::from_str(target)
        } else {
            let mut u = String::from_str("https://");
            u.append(target);
            u
        };
        LaunchPlan::Browser(url)
    } else {
        LaunchPlan::Terminal(String::from_str(target))
    }
}

/// A target that opens in the browser always opens a web address.
pub proof fn law_browser_opens_web_address(target: Seq<char>)
    ensures
        is_web_address(browser_address(target)),
{
    if !is_web_address(target) {
        assert(("https://"@ + target).take("https://"@.len() as int) =~= "https://"@);
    }
}

} // verus!
