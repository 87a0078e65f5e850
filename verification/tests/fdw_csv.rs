use chocobase::fdw::convert_csv_to_rows;
use chocobase::types::schema::{Column, ColumnType};
use chocobase::types::value::Value;

fn col(name: &str, ty: ColumnType) -> Column {
    Column { name: name.to_string(), ty, not_null: false, is_primary_key: false }
}

#[test]
fn csv_rows_follow_the_header_names() {
    let cols = vec![
        col("id", ColumnType::Integer),
        col("ok", ColumnType::Boolean),
        col("name", ColumnType::Text),
        col("missing", ColumnType::Text),
    ];
    let csv = "name, id ,ok\r\n bob ,7,TRUE\n\n  \nann,x,1\nzed\n";
    let rows = convert_csv_to_rows(csv, &cols).unwrap();
    assert_eq!(
        rows,
        vec![
            vec![Value::Integer(7), Value::Boolean(true), Value::Text("bob".to_string()), Value::Null],
            vec![Value::Integer(0), Value::Boolean(true), Value::Text("ann".to_string()), Value::Null],
            vec![Value::Null, Value::Null, Value::Text("zed".to_string()), Value::Null],
        ]
    );
    assert!(convert_csv_to_rows("", &cols).unwrap().is_empty());
}

#[test]
fn later_headers_with_the_same_name_win() {
    let cols = vec![col("a", ColumnType::Integer)];
    let rows = convert_csv_to_rows("a,a\n1,2\n", &cols).unwrap();
    assert_eq!(rows, vec![vec![Value::Integer(2)]]);
    let rows = convert_csv_to_rows("a\nfalse\n", &vec![col("a", ColumnType::Boolean)]).unwrap();
    assert_eq!(rows, vec![vec![Value::Boolean(false)]]);
}
