//! The `<meta-data>` element.

use vstd::prelude::*;

verus! {

/// A name-value pair of additional, arbitrary data supplied to the parent
/// component. A component element can hold any number of `<meta-data>`
/// subelements, and their values are collected into a single bundle for the
/// component. An ordinary value is given through `value`; to assign a
/// resource identifier instead, `resource` is used, and the component
/// receives the identifier, not the resource's content.
#[derive(Debug, PartialEq, Eq, Default, Clone)]
pub struct MetaData {
    /// A unique name for the item, conventionally a dotted name such as
    /// `com.example.project.activity.fred`.
    pub name: Option<String>,
    /// A reference to a resource whose identifier becomes the item's value.
    pub resource: Option<String>,
    /// The value assigned to the item.
    pub value: Option<String>,
}

} // verus!
