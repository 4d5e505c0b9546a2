//! Schema types for the Android application manifest, together with the
//! delimited attribute-list codec that several manifest attributes use: one
//! XML string value carries an ordered, non-empty list of typed values
//! separated by a fixed delimiter character.

pub mod attribute_list;
pub mod data;
pub mod meta_data;
pub mod path_permission;
pub mod wire;
pub mod xml_adapter;

pub use attribute_list::AttributeList;
pub use attribute_list::parse_list_with_delimiter;
pub use attribute_list::CodecError;
pub use attribute_list::Delimiter;
pub use attribute_list::ElementCodec;
pub use attribute_list::Semicolon;
pub use attribute_list::VerticalBar;
pub use data::Data;
pub use meta_data::MetaData;
pub use path_permission::PathPermission;
pub use xml_adapter::scan_event;
pub use xml_adapter::ScanStep;
pub use xml_adapter::XmlEvent;
