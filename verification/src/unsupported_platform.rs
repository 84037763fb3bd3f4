//! The capture back end of platforms without one: every request is refused.
use vstd::prelude::*;

use crate::color_picker::{MonitorInfo, ScreenCapture};
use crate::text::{is_err_with, owned};

verus! {

/// The message of a platform without a capture back end.
pub open spec fn unsupported_message() -> Seq<char> {
    "当前平台取色暂未支持"@
}

/// Lists no monitors: the platform is not supported.
pub fn list_monitors() -> (r: Result<Vec<MonitorInfo>, String>)
    ensures
        is_err_with(r, unsupported_message()),
{
    Err(owned("当前平台取色暂未支持"))
}

/// Captures nothing: the platform is not supported.
pub fn capture_virtual_desktop() -> (r: Result<ScreenCapture, String>)
    ensures
        is_err_with(r, unsupported_message()),
{
    Err(owned("当前平台取色暂未支持"))
}

/// Captures nothing: the platform is not supported.
pub fn capture_monitor(index: u32) -> (r: Result<ScreenCapture, String>)
    ensures
        is_err_with(r, unsupported_message()),
{
    Err(owned("当前平台取色暂未支持"))
}

} // verus!
