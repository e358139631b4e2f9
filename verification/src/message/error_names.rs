//! Common D-Bus error names.

use vstd::prelude::*;

verus! {

pub const UNKNOWN_METHOD: &'static str = "org.freedesktop.DBus.Error.UnknownMethod";
pub const NAME_HAS_NO_OWNER: &'static str = "org.freedesktop.DBus.Error.NameHasNoOwner";
pub const SERVICE_UNKNOWN: &'static str = "org.freedesktop.DBus.Error.ServiceUnknown";
pub const FAILED: &'static str = "org.freedesktop.DBus.Error.Failed";
pub const ACCESS_DENIED: &'static str = "org.freedesktop.DBus.Error.AccessDenied";
pub const INVALID_ARGS: &'static str = "org.freedesktop.DBus.Error.InvalidArgs";
pub const NO_REPLY: &'static str = "org.freedesktop.DBus.Error.NoReply";
pub const UNIX_PROCESS_ID_UNKNOWN: &'static str = "org.freedesktop.DBus.Error.UnixProcessIdUnknown";
pub const MATCH_RULE_INVALID: &'static str = "org.freedesktop.DBus.Error.MatchRuleInvalid";
pub const MATCH_RULE_NOT_FOUND: &'static str = "org.freedesktop.DBus.Error.MatchRuleNotFound";

} // verus!
