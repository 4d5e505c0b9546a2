//! The `<path-permission>` element.

use vstd::prelude::*;

verus! {

/// The path and required permissions for a specific subset of the data of a
/// content provider. The element can appear multiple times to cover
/// multiple paths.
#[derive(Debug, PartialEq, Eq, Default, Clone)]
pub struct PathPermission {
    /// A complete URI path for a subset of the provider's data; permission
    /// is granted only for the data named by this path.
    pub path: Option<String>,
    /// An initial part of a URI path; permission is granted for every data
    /// subset whose path begins with it.
    pub path_prefix: Option<String>,
    /// A complete URI path with wildcards: an asterisk matches zero or more
    /// occurrences of the preceding character, and a period followed by an
    /// asterisk matches any sequence of characters. Backslash escapes are
    /// read once by the XML parser and once by the pattern parser, so a
    /// literal asterisk is written twice-escaped.
    pub path_pattern: Option<String>,
    /// A permission that clients must hold to read or write the provider's
    /// data; the read and write permissions below take precedence over it.
    pub permission: Option<String>,
    /// A permission that clients must hold to query the provider.
    pub read_permission: Option<String>,
    /// A permission that clients must hold to change the provider's data.
    pub write_permission: Option<String>,
}

} // verus!
