use midas_rs::column::{parses, Categorical, ColumnBuffer, ColumnKind, Numerical, SeriesData};
use midas_rs::columns::{column_kind, column_name, Columns, Frame};
use midas_rs::error::Error;
use midas_rs::numeric::Real;
use midas_rs::row::{normalize_line, Row};

const QUOTE: &str = "F@ 1646231400123 930 45 O SPXW_220302C04400000 7 1.25 Q A 12 1.35 N X Y";
const TRADE: &str = "FT 1646231400456 931 46 O SPXW_220302C04400000 I 3 4.5 B 8 9 Z";

fn owned(items: &[&str]) -> Vec<String> {
    items.iter().map(|s| s.to_string()).collect()
}

#[test]
fn categorical_interns_each_value_once() {
    let mut c = Categorical::with_capacity(4);
    for v in ["Q", "A", "Q", "Q", "B", "A"] {
        assert_eq!(c.push(v), Ok(()));
    }
    assert_eq!(c.len(), 6);
    assert_eq!(c.cached, owned(&["Q", "A", "B"]));
    assert_eq!(c.codes, vec![0, 1, 0, 0, 2, 1]);
    let s = c.into_series("c9");
    assert_eq!(s.name, "c9");
    assert_eq!(s.len(), 6);
    assert_eq!(
        s.data,
        SeriesData::Categorical { dictionary: owned(&["Q", "A", "B"]), codes: vec![0, 1, 0, 0, 2, 1] }
    );
}

#[test]
fn categorical_tells_texts_apart_exactly() {
    let mut c = Categorical::with_capacity(0);
    for v in ["a", "A", "a ", "", "a"] {
        c.push(v).unwrap();
    }
    assert_eq!(c.cached, owned(&["a", "A", "a ", ""]));
    assert_eq!(c.codes, vec![0, 1, 2, 3, 0]);
}

#[test]
fn numerical_with_capacity_is_empty() {
    let n: Numerical<u64> = Numerical::with_capacity(10);
    assert_eq!(n.len(), 0);
    assert_eq!(n.column, 0);
    assert!(n.inner.is_empty());
}

#[test]
fn numerical_pushes_numbers_and_refuses_the_rest() {
    let mut n: Numerical<u32> = Numerical::with_capacity(2).in_column(6);
    assert_eq!(n.push("7"), Ok(()));
    assert_eq!(
        n.push("seven"),
        Err(Error::NumericParseError { column: 6, raw_value: "seven".to_string() })
    );
    assert_eq!(n.push("+8"), Ok(()));
    assert_eq!(n.inner, vec![7, 8]);
    let s = n.into_series("c7");
    assert_eq!(s.name, "c7");
    assert_eq!(s.data, SeriesData::UInt32(vec![7, 8]));
}

#[test]
fn numerical_of_reals_keeps_literals() {
    let mut n: Numerical<Real> = Numerical::with_capacity(2).in_column(7);
    assert_eq!(n.push("1.25"), Ok(()));
    assert_eq!(
        n.push("1,25"),
        Err(Error::NumericParseError { column: 7, raw_value: "1,25".to_string() })
    );
    let s = n.into_series("c8");
    match s.data {
        SeriesData::Float32(items) => {
            assert_eq!(items.len(), 1);
            assert_eq!(items[0].as_str().parse::<f32>().unwrap(), 1.25f32);
        }
        other => panic!("not a float column: {:?}", other),
    }
}

#[test]
fn numerical_of_u64_takes_what_u32_refuses() {
    let mut wide: Numerical<u64> = Numerical::with_capacity(1).in_column(1);
    let mut narrow: Numerical<u32> = Numerical::with_capacity(1).in_column(2);
    assert_eq!(wide.push("1646231400123"), Ok(()));
    assert_eq!(
        narrow.push("1646231400123"),
        Err(Error::NumericParseError { column: 2, raw_value: "1646231400123".to_string() })
    );
    assert_eq!(wide.into_series("c2").data, SeriesData::UInt64(vec![1646231400123]));
}

#[test]
fn parses_goes_by_the_kind() {
    assert!(parses(ColumnKind::Categorical, "anything at all"));
    assert!(parses(ColumnKind::Categorical, ""));
    assert!(parses(ColumnKind::UInt64, "18446744073709551615"));
    assert!(!parses(ColumnKind::UInt32, "18446744073709551615"));
    assert!(parses(ColumnKind::Float32, "1e5"));
    assert!(!parses(ColumnKind::UInt32, "1e5"));
    assert!(!parses(ColumnKind::Float32, ""));
}

#[test]
fn column_buffer_dispatches_on_its_variant() {
    let mut text = ColumnBuffer::with_capacity(ColumnKind::Categorical, 0, 4);
    let mut number = ColumnBuffer::with_capacity(ColumnKind::UInt64, 1, 4);
    assert_eq!(text.push("x"), Ok(()));
    assert_eq!(number.push("12"), Ok(()));
    assert_eq!(
        number.push("x"),
        Err(Error::NumericParseError { column: 1, raw_value: "x".to_string() })
    );
    assert_eq!(text.len(), 1);
    assert_eq!(number.len(), 1);
    assert_eq!(number.finish("c2").data, SeriesData::UInt64(vec![12]));
    assert_eq!(
        text.finish("c1").data,
        SeriesData::Categorical { dictionary: owned(&["x"]), codes: vec![0] }
    );
}

#[test]
fn schema_table_is_fixed() {
    let kinds: Vec<ColumnKind> = (0..15).map(column_kind).collect();
    let c = ColumnKind::Categorical;
    let w = ColumnKind::UInt64;
    let u = ColumnKind::UInt32;
    let f = ColumnKind::Float32;
    assert_eq!(kinds, vec![c, w, u, u, c, c, u, f, c, c, u, f, c, c, c]);
    let names: Vec<&str> = (0..15).map(column_name).collect();
    assert_eq!(
        names,
        vec![
            "c1", "c2", "c3", "c4", "c5", "c6", "c7", "c8", "c9", "c10", "c11", "c12", "c13",
            "c14", "c15"
        ]
    );
}

#[test]
fn columns_take_a_quote_and_a_trade() {
    let mut columns = Columns::with_capacity(8);
    assert_eq!(columns.len(), 0);
    assert_eq!(columns.push(&normalize_line(QUOTE).unwrap()), Ok(()));
    assert_eq!(columns.push(&normalize_line(TRADE).unwrap()), Ok(()));
    assert_eq!(columns.len(), 2);
    let frame = columns.into_frame();
    assert_eq!(frame.width(), 15);
    assert_eq!(frame.height(), 2);
    assert_eq!(
        frame.columns[0].data,
        SeriesData::Categorical { dictionary: owned(&["F@", "FT"]), codes: vec![0, 1] }
    );
    assert_eq!(frame.columns[1].data, SeriesData::UInt64(vec![1646231400123, 1646231400456]));
    assert_eq!(frame.columns[2].data, SeriesData::UInt32(vec![930, 931]));
    assert_eq!(frame.columns[6].data, SeriesData::UInt32(vec![7, 3]));
    assert_eq!(
        frame.columns[5].data,
        SeriesData::Categorical { dictionary: owned(&["SPXW_220302C04400000"]), codes: vec![0, 0] }
    );
    assert_eq!(
        frame.columns[8].data,
        SeriesData::Categorical { dictionary: owned(&["Q", "I"]), codes: vec![0, 1] }
    );
    assert_eq!(frame.columns[10].data, SeriesData::UInt32(vec![12, 0]));
    match &frame.columns[11].data {
        SeriesData::Float32(items) => {
            let values: Vec<f32> = items.iter().map(|r| r.as_str().parse().unwrap()).collect();
            assert_eq!(values, vec![1.35f32, 0.0f32]);
        }
        other => panic!("not a float column: {:?}", other),
    }
    assert_eq!(
        frame.columns[14].data,
        SeriesData::Categorical { dictionary: owned(&["Y", ""]), codes: vec![0, 1] }
    );
    for (j, series) in frame.columns.iter().enumerate() {
        assert_eq!(series.name, column_name(j));
        assert_eq!(series.data.column_kind(), column_kind(j));
        assert_eq!(series.len(), 2);
    }
}

#[test]
fn columns_refuse_a_row_whole() {
    let mut columns = Columns::with_capacity(8);
    columns.push(&normalize_line(QUOTE).unwrap()).unwrap();
    let bad = "F@ 1646231400123 930 45 O SYM 7 oops Q A twelve 1.35 N X Y";
    assert_eq!(
        columns.push(&normalize_line(bad).unwrap()),
        Err(Error::NumericParseError { column: 7, raw_value: "oops".to_string() })
    );
    assert_eq!(columns.len(), 1);
    let frame = columns.into_frame();
    assert_eq!(frame.height(), 1);
    for series in &frame.columns {
        assert_eq!(series.len(), 1);
    }
    assert_eq!(
        frame.columns[0].data,
        SeriesData::Categorical { dictionary: owned(&["F@"]), codes: vec![0] }
    );
    assert_eq!(
        frame.columns[5].data,
        SeriesData::Categorical { dictionary: owned(&["SPXW_220302C04400000"]), codes: vec![0] }
    );
}

#[test]
fn columns_refuse_a_row_of_another_width() {
    let mut columns = Columns::with_capacity(1);
    assert_eq!(columns.push(&Row { fields: owned(&["F@", "1"]) }), Err(Error::MalformedRecord));
    assert_eq!(columns.len(), 0);
}

#[test]
fn empty_columns_give_an_empty_frame_of_fifteen_series() {
    let frame = Columns::with_capacity(3).into_frame();
    assert_eq!(frame.width(), 15);
    assert_eq!(frame.height(), 0);
    let fields = frame.fields();
    assert_eq!(fields.len(), 15);
    assert_eq!(fields[1].name, "c2");
    assert_eq!(fields[1].kind, ColumnKind::UInt64);
}

#[test]
fn frame_of_ragged_series_is_refused() {
    let mut a: Numerical<u32> = Numerical::with_capacity(1);
    a.push("1").unwrap();
    a.push("2").unwrap();
    let mut b: Numerical<u32> = Numerical::with_capacity(1);
    b.push("1").unwrap();
    let ragged = vec![a.into_series("a"), b.into_series("b")];
    assert_eq!(Frame::new(ragged), Err(Error::SchemaMismatch));
    let mut c: Numerical<u32> = Numerical::with_capacity(1);
    c.push("5").unwrap();
    let single = Frame::new(vec![c.into_series("c")]).unwrap();
    assert_eq!(single.height(), 1);
    assert_eq!(Frame::new(Vec::new()).unwrap().height(), 0);
}
