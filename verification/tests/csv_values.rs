use apexforge::apexlang::ast::Value;
use apexforge::apexlang::csv::{from_csv, to_csv};

fn s(t: &str) -> Value {
    Value::String(t.to_string())
}

fn rows_of(v: &Value) -> Vec<String> {
    match v {
        Value::Tuple(rows) => rows.iter().map(|r| r.to_string()).collect(),
        _ => panic!("expected rows"),
    }
}

#[test]
fn csv_round_trips_basic_rows() {
    let rows = Value::Tuple(vec![
        Value::Tuple(vec![Value::Int("1".to_string()), s("alpha")]),
        Value::Tuple(vec![Value::Bool(true), Value::Number("3.5".to_string())]),
    ]);
    let csv = to_csv(&rows);
    assert!(csv.contains("alpha"));
    assert_eq!(csv, "1,alpha\ntrue,3.5");
    let parsed = from_csv(&csv);
    assert_eq!(rows_of(&parsed), vec!["(1, \"alpha\")", "(true, 3.5)"]);
}

#[test]
fn csv_quotes_cells_that_need_it() {
    let rows = Value::Tuple(vec![Value::Tuple(vec![
        s("a,b"),
        s("say \"hi\""),
        Value::Tuple(vec![Value::Int("1".to_string()), s("x")]),
    ])]);
    assert_eq!(to_csv(&rows), "\"a,b\",\"say \"\"hi\"\"\",\"1|\"\"x\"\"\"");
    assert_eq!(to_csv(&Value::Bool(false)), "false");
    assert_eq!(to_csv(&Value::Tuple(vec![s("only")])), "only");
}

#[test]
fn csv_reading_skips_blank_lines_and_types_cells() {
    let parsed = from_csv(" 7 , -2.5e1, false ,\"quoted\" ,text\n\n   \r\n+3,1_0,x\r\n");
    assert_eq!(
        rows_of(&parsed),
        vec!["(7, -2.5e1, false, \"quoted\", \"text\")", "(3, 10, \"x\")"]
    );
    assert_eq!(rows_of(&from_csv("")), Vec::<String>::new());
    assert_eq!(rows_of(&from_csv("a,,b")), vec!["(\"a\", \"\", \"b\")"]);
}
