//! The `<data>` element of an intent filter.

use vstd::prelude::*;

verus! {

/// A data specification inside an `<intent-filter>` element: a MIME type, a
/// URI, or both. A URI is given piecewise, one attribute for each of its
/// parts, `<scheme>://<host>:<port>[<path>|<pathPrefix>|<pathPattern>]`. The
/// URI attributes are mutually dependent: without a scheme the other URI
/// attributes are ignored, and without a host the port and path attributes
/// are ignored. All `<data>` elements within one `<intent-filter>`
/// contribute to the same filter. None of the attributes has a default.
#[derive(Debug, PartialEq, Default)]
pub struct Data {
    /// The scheme part of a URI, written without the trailing colon (for
    /// example `http`, not `http:`). At least one scheme must be set for the
    /// other URI attributes to be meaningful. Matching is case-sensitive, so
    /// schemes should be written in lowercase.
    pub scheme: Option<String>,
    /// The host part of a URI authority, meaningful only together with a
    /// scheme. A leading asterisk matches zero or more characters before the
    /// rest of the host; it is only valid as the first character. Matching
    /// is case-sensitive, so hosts should be written in lowercase.
    pub host: Option<String>,
    /// The port part of a URI authority, meaningful only together with a
    /// scheme and a host.
    pub port: Option<String>,
    /// A complete URI path, beginning with `/`, matched against the whole
    /// path of the intent's URI.
    pub path: Option<String>,
    /// A complete URI path with wildcards: an asterisk matches zero or more
    /// occurrences of the preceding character, and a period followed by an
    /// asterisk matches any sequence of characters. Backslash escapes are
    /// read once by the XML parser and once by the pattern parser, so a
    /// literal asterisk is written twice-escaped.
    pub path_pattern: Option<String>,
    /// An initial part of a URI path, matched against the beginning of the
    /// path of the intent's URI.
    pub path_prefix: Option<String>,
    /// A MIME media type such as `image/jpeg`. The subtype can be the
    /// asterisk wildcard. Matching is case-sensitive, so MIME types should
    /// be written in lowercase.
    pub mime_type: Option<String>,
}

} // verus!
