use apexforge::apexlang::ast::Value;
use apexforge::apexlang::xml::{value_to_xml, xml_to_value};

fn s(t: &str) -> Value {
    Value::String(t.to_string())
}

#[test]
fn xml_round_trip_handles_nested_items() {
    let value = Value::Tuple(vec![
        Value::Tuple(vec![s("k"), Value::Bool(true)]),
        Value::Tuple(vec![s("list"), Value::Tuple(vec![Value::Int("1".to_string())])]),
    ]);
    let xml = value_to_xml(&value);
    let rebuilt = xml_to_value(&xml).expect("from xml");
    assert_eq!(value_to_xml(&rebuilt), xml);
    assert_eq!(rebuilt.to_string(), value.to_string());
}

#[test]
fn xml_text_of_scalars() {
    assert_eq!(value_to_xml(&Value::Int("42".to_string())), "<value type=\"int\">42</value>");
    assert_eq!(value_to_xml(&Value::Bool(false)), "<value type=\"bool\">false</value>");
    assert_eq!(
        value_to_xml(&s("a<b & 'c'")),
        "<value type=\"string\">a&lt;b &amp; &apos;c&apos;</value>"
    );
    assert_eq!(
        value_to_xml(&Value::Tuple(vec![])),
        "<value type=\"tuple\"></value>"
    );
}

#[test]
fn xml_parsing_reads_types_and_whitespace() {
    let v = xml_to_value("  <value  type=\"tuple\">\n <item><value type=\"int\">+0_7</value></item> <item> <value type=\"number\">2.5e3</value> </item></value>  ").unwrap();
    assert_eq!(v.to_string(), "(7, 2.5e3)");
    let b = xml_to_value("<value type=\"bool\">yes</value>").unwrap();
    assert_eq!(b.to_string(), "false");
    let t = xml_to_value("<value type=\"string\">x &amp; y</value>").unwrap();
    assert_eq!(t.to_string(), "\"x & y\"");
}

#[test]
fn xml_errors_name_the_problem() {
    let err = |x: &str| xml_to_value(x).unwrap_err().message().to_string();
    assert_eq!(err("<val"), "serde.from_xml encountered malformed tags");
    assert_eq!(err("<value type=\"int"), "serde.from_xml reached the end of the document unexpectedly");
    assert_eq!(err("<value type=\"date\">x</value>"), "serde XML type is not supported");
    assert_eq!(
        err("<value type=\"int\">x</value>"),
        "serde XML int parse error: invalid digit found in string"
    );
    assert_eq!(
        err("<value type=\"number\"></value>"),
        "serde XML number parse error: cannot parse float from empty string"
    );
    assert_eq!(
        err("<value type=\"number\">1e</value>"),
        "serde XML number parse error: invalid float literal"
    );
    assert_eq!(
        err("<value type=\"bool\">true</value> x"),
        "serde.from_xml encountered trailing characters after root"
    );
    assert_eq!(err("<value type=\"string\">&bad;</value>"), "serde.from_xml encountered an unknown entity");
    assert_eq!(err("<value type=\"tuple\"><x/></value>"), "serde.from_xml encountered malformed tags");
    assert!(xml_to_value("<value type=\"number\">-inf</value>").is_ok());
    assert!(xml_to_value("<value type=\"number\">NaN</value>").is_ok());
    assert!(xml_to_value("<value type=\"number\">.5</value>").is_ok());
    assert!(xml_to_value("<value type=\"number\">5.</value>").is_ok());
    assert!(xml_to_value("<value type=\"number\">.</value>").is_err());
}
