use aube::package_name::{encode_package_name, split_name_spec};

#[test]
fn scoped_name_encodes_slash() {
    assert_eq!(encode_package_name("@scope/pkg"), "@scope%2Fpkg");
}

#[test]
fn plain_name_passthrough() {
    assert_eq!(encode_package_name("lodash"), "lodash");
}

#[test]
fn malformed_scoped_name_passthrough() {
    assert_eq!(encode_package_name("@scope"), "@scope");
}

#[test]
fn plain_name() {
    assert_eq!(split_name_spec("lodash"), ("lodash", None));
}

#[test]
fn name_with_version() {
    assert_eq!(
        split_name_spec("lodash@4.17.21"),
        ("lodash", Some("4.17.21"))
    );
}

#[test]
fn name_with_range() {
    assert_eq!(split_name_spec("lodash@^4"), ("lodash", Some("^4")));
}

#[test]
fn name_with_tag() {
    assert_eq!(split_name_spec("react@next"), ("react", Some("next")));
}

#[test]
fn scoped_no_version() {
    assert_eq!(split_name_spec("@babel/core"), ("@babel/core", None));
}

#[test]
fn scoped_with_version() {
    assert_eq!(
        split_name_spec("@babel/core@7.0.0"),
        ("@babel/core", Some("7.0.0"))
    );
}

#[test]
fn a_joined_name_and_spec_is_split_again() {
    for name in ["left-pad", "@types/node", "naïve"] {
        for spec in ["latest", "^1.2", "npm:other", "1.0.0-ü"] {
            let joined = format!("{name}@{spec}");
            assert_eq!(split_name_spec(&joined), (name, Some(spec)));
        }
    }
}
