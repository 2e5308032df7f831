//! Parsing schema text: paths, fields, messages, services and hashes.

use ros2_message::{
    is_valid_package_name, message_field, DataType, Error, FieldCase, FieldInfo, HashTable,
    MessagePath, Msg, Srv, Value,
};

#[test]
fn package_names_follow_the_rules() {
    assert!(is_valid_package_name("foo"));
    assert!(is_valid_package_name("foo_bar2"));
    assert!(!is_valid_package_name("f"));
    assert!(!is_valid_package_name("0foo"));
    assert!(!is_valid_package_name("Foo"));
    assert!(!is_valid_package_name("foo__bar"));
}

#[test]
fn message_path_construction() {
    let path = MessagePath::new("foo", "Bar").unwrap();
    assert_eq!(path.package(), "foo");
    assert_eq!(path.name(), "Bar");
    assert!(MessagePath::new("0foo", "Bar").is_err());

    let peer = path.peer("Baz");
    assert_eq!(peer.package(), "foo");
    assert_eq!(peer.name(), "Baz");
    assert_eq!(path.combined(), "foo/Bar");
}

#[test]
fn combined_paths_accept_msg_and_reject_srv() {
    let p = MessagePath::from_combined("package/msg/SmallMsg").unwrap();
    assert_eq!(p.package(), "package");
    assert_eq!(p.name(), "SmallMsg");

    let q = MessagePath::from_combined("foo/Bar").unwrap();
    assert_eq!(q.name(), "Bar");

    assert!(matches!(
        MessagePath::from_combined("foo/srv/Bar"),
        Err(Error::InvalidMessagePath { .. })
    ));
    assert!(matches!(
        MessagePath::from_combined("justoneword"),
        Err(Error::InvalidMessagePath { .. })
    ));
}

#[test]
fn field_info_construction() {
    let field = FieldInfo::new("int16", "foo", FieldCase::Vector).unwrap();
    assert_eq!(field.name(), "foo");
    assert!(matches!(field.datatype(), DataType::I16));
    assert!(matches!(field.case(), FieldCase::Vector));
    assert!(!field.is_constant());

    let constant = FieldInfo::new("int16", "FOO", FieldCase::Const("12".to_owned())).unwrap();
    assert!(constant.is_constant());
    assert_eq!(constant.const_value().unwrap().as_i16(), Some(12));

    assert!(FieldInfo::new("bad/field/type", "foo", FieldCase::Vector).is_err());
    assert!(matches!(
        FieldInfo::new("uint8", "FOO", FieldCase::Const("300".to_owned())),
        Err(Error::BadConstant { .. })
    ));
}

#[test]
fn header_fields_are_recognized() {
    assert!(FieldInfo::new("Header", "header", FieldCase::Unit)
        .unwrap()
        .is_header());
    assert!(FieldInfo::new("std_msgs/Header", "header", FieldCase::Unit)
        .unwrap()
        .is_header());
    assert!(!FieldInfo::new("Header", "header", FieldCase::Vector)
        .unwrap()
        .is_header());
    assert!(!FieldInfo::new("Header", "some_field", FieldCase::Unit)
        .unwrap()
        .is_header());
    assert!(FieldInfo::new("Header", "header", FieldCase::Const("12".to_owned())).is_err());
}

#[test]
fn message_parsing_collects_fields_in_order() {
    let message = Msg::new(
        MessagePath::new("foo", "Bar").unwrap(),
        r#"# a comment that is ignored
        Header header
        uint32 a
        byte[16] b
        geometry_msgs/Point[] point
        uint32 FOO=5
        string SOME_TEXT=this is # some text, don't be fooled by the hash
        "#,
    )
    .unwrap();

    assert_eq!(message.path().combined(), "foo/Bar");
    assert_eq!(message.fields().len(), 6);
    assert!(message.has_header());

    let constants = message.constants();
    assert_eq!(constants.len(), 2);
    assert_eq!(
        message_field(&constants, "FOO").unwrap().as_u32(),
        Some(5)
    );
    assert_eq!(
        message_field(&constants, "SOME_TEXT").unwrap().as_str(),
        Some("this is # some text, don't be fooled by the hash")
    );

    let dependencies = message.dependencies();
    assert_eq!(dependencies.len(), 2);
    assert_eq!(dependencies[0].combined(), "std_msgs/Header");
    assert_eq!(dependencies[1].combined(), "geometry_msgs/Point");
}

#[test]
fn local_references_resolve_against_own_package() {
    let message = Msg::new(
        MessagePath::new("foo", "Bar").unwrap(),
        "Point[] point2\nfoo/Baz[] baz",
    )
    .unwrap();
    let dependencies = message.dependencies();
    assert_eq!(dependencies.len(), 2);
    assert_eq!(dependencies[0].combined(), "foo/Point");
    assert_eq!(dependencies[1].combined(), "foo/Baz");
}

#[test]
fn malformed_lines_are_rejected() {
    let path = MessagePath::new("foo", "Bar").unwrap();
    assert!(matches!(
        Msg::new(path.clone(), "justoneword"),
        Err(Error::BadMessageContent(_))
    ));
    assert!(matches!(
        Msg::new(path.clone(), "a/b/c x"),
        Err(Error::UnsupportedDataType { .. })
    ));
    assert!(matches!(
        Msg::new(path.clone(), "0bad/Name x"),
        Err(Error::InvalidMessagePath { .. })
    ));
    assert!(matches!(
        Msg::new(path, "uint32 FOO=abc"),
        Err(Error::BadConstant { .. })
    ));
}

#[test]
fn default_values_are_parsed() {
    let message = Msg::new(MessagePath::new("foo", "Bar").unwrap(), "uint8 x 5").unwrap();
    let field = &message.fields()[0];
    assert!(matches!(field.case(), FieldCase::Default(_)));
    assert_eq!(field.default_value().unwrap().as_u8(), Some(5));
}

#[test]
fn md5_strings_render_fields() {
    let mut hashes: HashTable = Vec::new();
    hashes.push((
        MessagePath::new("std_msgs", "Header").unwrap(),
        "123".to_owned(),
    ));
    hashes.push((
        MessagePath::new("geometry_msgs", "Position").unwrap(),
        "345".to_owned(),
    ));
    hashes.push((
        MessagePath::new("foo", "Position").unwrap(),
        "678".to_owned(),
    ));

    let unit = FieldInfo::new("int16", "foo", FieldCase::Unit).unwrap();
    assert_eq!(unit.md5_string("foo", &hashes).unwrap(), "int16 foo");

    let vector = FieldInfo::new("float64", "foo", FieldCase::Vector).unwrap();
    assert_eq!(vector.md5_string("foo", &hashes).unwrap(), "float64[] foo");

    let array = FieldInfo::new("byte", "foo", FieldCase::Array(12)).unwrap();
    assert_eq!(array.md5_string("foo", &hashes).unwrap(), "byte[12] foo");

    let constant = FieldInfo::new("byte", "FOO", FieldCase::Const("12".to_owned())).unwrap();
    assert_eq!(constant.md5_string("foo", &hashes).unwrap(), "byte FOO=12");

    let header = FieldInfo::new("Header", "foo", FieldCase::Unit).unwrap();
    assert_eq!(header.md5_string("foo", &hashes).unwrap(), "123 foo");

    let local = FieldInfo::new("Position", "foo", FieldCase::Vector).unwrap();
    assert_eq!(local.md5_string("foo", &hashes).unwrap(), "678 foo");

    let global =
        FieldInfo::new("geometry_msgs/Position", "foo", FieldCase::Array(12)).unwrap();
    assert_eq!(global.md5_string("foo", &hashes).unwrap(), "345 foo");

    let absent = FieldInfo::new("other_msgs/Position", "foo", FieldCase::Unit).unwrap();
    assert!(matches!(
        absent.md5_string("foo", &hashes),
        Err(Error::MessageDependencyMissing { .. })
    ));
}

#[test]
fn md5_representation_puts_constants_first() {
    let message = Msg::new(
        MessagePath::new("foo", "Bar").unwrap(),
        "uint32 a\nuint32 FOO=5",
    )
    .unwrap();
    let hashes: HashTable = Vec::new();
    assert_eq!(
        message.get_md5_representation(&hashes).unwrap(),
        "uint32 FOO=5\nuint32 a"
    );
    assert_eq!(
        message.calculate_md5(&hashes).unwrap(),
        "9b5932fa6800ea9d6f11d259f833fb2e"
    );
}

#[test]
fn services_split_on_triple_dash() {
    let service = Srv::new(
        MessagePath::new("foo", "Bar").unwrap(),
        "uint32 a\nuint32 FOO=6\n---\nuint32 b\nstring label",
    )
    .unwrap();
    assert_eq!(service.path().combined(), "foo/Bar");
    assert_eq!(service.request().fields().len(), 2);
    assert_eq!(service.response().fields().len(), 2);
    assert_eq!(service.request().path().combined(), "foo/BarReq");
    assert_eq!(service.response().path().combined(), "foo/BarRes");

    let one_sided = Srv::new(MessagePath::new("foo", "Ping").unwrap(), "uint8 x").unwrap();
    assert_eq!(one_sided.request().fields().len(), 1);
    assert_eq!(one_sided.response().fields().len(), 0);

    assert!(matches!(
        Srv::new(
            MessagePath::new("foo", "Bad").unwrap(),
            "uint8 x\n---\nuint8 y\n---\nuint8 z"
        ),
        Err(Error::BadMessageContent(_))
    ));
}

#[test]
fn empty_schema_text_has_no_fields() {
    let message = Msg::new(MessagePath::new("foo", "Empty").unwrap(), "").unwrap();
    assert_eq!(message.fields().len(), 0);
    let commented = Msg::new(
        MessagePath::new("foo", "Empty").unwrap(),
        "# nothing here

   # nor here",
    )
    .unwrap();
    assert_eq!(commented.fields().len(), 0);
}

#[test]
fn extreme_integer_literals() {
    let message = Msg::new(
        MessagePath::new("foo", "Limits").unwrap(),
        "uint64 BIG=18446744073709551615
int64 SMALL=-9223372036854775808",
    )
    .unwrap();
    let constants = message.constants();
    assert_eq!(
        message_field(&constants, "BIG").unwrap().as_u64(),
        Some(u64::MAX)
    );
    assert_eq!(
        message_field(&constants, "SMALL").unwrap().as_i64(),
        Some(i64::MIN)
    );

    assert!(matches!(
        Msg::new(
            MessagePath::new("foo", "Limits").unwrap(),
            "uint64 TOO_BIG=18446744073709551616"
        ),
        Err(Error::BadConstant { .. })
    ));
    // An array bound beyond any machine size is no field line at all.
    assert!(matches!(
        Msg::new(
            MessagePath::new("foo", "Limits").unwrap(),
            "uint8[99999999999999999999999999] xs"
        ),
        Err(Error::BadMessageContent(_))
    ));
}

#[test]
fn bool_constants_compare_against_zero() {
    let message = Msg::new(
        MessagePath::new("foo", "Flags").unwrap(),
        "bool YES=1
bool NO=0
bool ALSO_YES=abc",
    )
    .unwrap();
    let constants = message.constants();
    assert_eq!(message_field(&constants, "YES").unwrap().as_bool(), Some(true));
    assert_eq!(message_field(&constants, "NO").unwrap().as_bool(), Some(false));
    assert_eq!(
        message_field(&constants, "ALSO_YES").unwrap().as_bool(),
        Some(true)
    );
}

#[test]
fn value_accessors_fit_their_variants() {
    assert_eq!(Value::Bool(true).as_bool(), Some(true));
    assert_eq!(Value::U32(12).as_bool(), None);
    assert_eq!(Value::I8(12).as_i8(), Some(12));
    assert_eq!(Value::U32(12).as_u32(), Some(12));
    assert_eq!(Value::String("foo".to_owned()).as_str(), Some("foo"));
    assert_eq!(
        Value::String("foo".to_owned()).try_into_string(),
        Some("foo".to_owned())
    );
    let arr = Value::Array(vec![Value::U32(1), Value::U32(2)]);
    assert_eq!(arr.as_slice().unwrap().len(), 2);
    assert_eq!(arr.try_into_vec().unwrap()[1].as_u32(), Some(2));
}
