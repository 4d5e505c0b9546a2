use android_manifest::Data;
use android_manifest::MetaData;
use android_manifest::PathPermission;

#[test]
fn data_defaults_to_no_attributes() {
    let data = Data::default();
    assert_eq!(data.scheme, None);
    assert_eq!(data.host, None);
    assert_eq!(data.port, None);
    assert_eq!(data.path, None);
    assert_eq!(data.path_pattern, None);
    assert_eq!(data.path_prefix, None);
    assert_eq!(data.mime_type, None);
}

#[test]
fn data_holds_uri_parts() {
    let data = Data {
        scheme: Some(String::from("https")),
        host: Some(String::from("*.example.com")),
        port: Some(String::from("8080")),
        path: Some(String::from("/item")),
        path_pattern: None,
        path_prefix: None,
        mime_type: Some(String::from("image/jpeg")),
    };
    assert_eq!(data.scheme.as_deref(), Some("https"));
    assert_eq!(data.mime_type.as_deref(), Some("image/jpeg"));
}

#[test]
fn meta_data_holds_name_and_value() {
    let meta = MetaData {
        name: Some(String::from("zoo")),
        resource: None,
        value: Some(String::from("kangaroo")),
    };
    let copy = meta.clone();
    assert_eq!(copy, meta);
    assert_eq!(copy.value.as_deref(), Some("kangaroo"));
}

#[test]
fn path_permission_holds_permissions() {
    let perm = PathPermission {
        path: Some(String::from("/search_suggest_query")),
        path_prefix: None,
        path_pattern: None,
        permission: Some(String::from("com.example.PERM")),
        read_permission: Some(String::from("com.example.READ")),
        write_permission: None,
    };
    assert_eq!(perm.read_permission.as_deref(), Some("com.example.READ"));
    assert_ne!(perm, PathPermission::default());
}
