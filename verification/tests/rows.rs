use midas_rs::error::Error;
use midas_rs::row::{leading_tag, normalize, normalize_line, parse_quote, parse_trade, Row};

const QUOTE: &str = "F@ 1646231400123 930 45 O SPXW_220302C04400000 7 1.25 Q A 12 1.35 N X Y";
const TRADE: &str = "FT 1646231400456 931 46 O SPXW_220302C04400000 I 3 4.5 B 8 9 Z";

fn owned(items: &[&str]) -> Vec<String> {
    items.iter().map(|s| s.to_string()).collect()
}

#[test]
fn quote_of_fifteen_fields_is_its_own_split() {
    let row = normalize("F@", QUOTE).unwrap();
    let expected: Vec<String> = QUOTE.split(' ').map(|s| s.to_string()).collect();
    assert_eq!(row.fields, expected);
    assert_eq!(row.fields.len(), 15);
}

#[test]
fn quote_of_another_width_is_malformed() {
    assert_eq!(normalize("F@", "F@ 1 2 3"), Err(Error::MalformedRecord));
    let sixteen = format!("{} extra", QUOTE);
    assert_eq!(normalize("F@", &sixteen), Err(Error::MalformedRecord));
    assert_eq!(normalize("F@", ""), Err(Error::MalformedRecord));
    assert_eq!(parse_quote(TRADE), Err(Error::MalformedRecord));
}

#[test]
fn quote_with_doubled_space_has_an_empty_field() {
    let line = "F@ 1 2 3 O S 7 1.25 Q A 12 1.35 N  Y";
    let row = parse_quote(line).unwrap();
    assert_eq!(row.fields[13], "");
    assert_eq!(row.fields[14], "Y");
}

#[test]
fn trade_is_brought_into_the_quote_layout() {
    let row = normalize("FT", TRADE).unwrap();
    assert_eq!(
        row.fields,
        owned(&[
            "FT",
            "1646231400456",
            "931",
            "46",
            "O",
            "SPXW_220302C04400000",
            "3",
            "4.5",
            "I",
            "B",
            "0",
            "0",
            "Z",
            "",
            "",
        ])
    );
}

#[test]
fn trade_fields_six_to_eight_rotate() {
    let line = "FT f1 f2 f3 f4 f5 a b c f9 f10 f11 f12";
    let row = parse_trade(line).unwrap();
    assert_eq!(row.fields.len(), 15);
    assert_eq!(row.fields[6], "b");
    assert_eq!(row.fields[7], "c");
    assert_eq!(row.fields[8], "a");
    assert_eq!(row.fields[9], "f9");
    assert_eq!(row.fields[10], "0");
    assert_eq!(row.fields[11], "0");
    assert_eq!(row.fields[12], "f12");
    assert_eq!(row.fields[13], "");
    assert_eq!(row.fields[14], "");
}

#[test]
fn trade_of_fewer_than_thirteen_fields_is_malformed() {
    assert_eq!(normalize("FT", "FT 1 2 3 4 5 6 7 8 9 10 11"), Err(Error::MalformedRecord));
    assert_eq!(parse_trade("FT"), Err(Error::MalformedRecord));
    assert_eq!(parse_trade(""), Err(Error::MalformedRecord));
}

#[test]
fn trade_of_more_than_thirteen_fields_keeps_the_first_thirteen() {
    let line = "FT f1 f2 f3 f4 f5 a b c f9 f10 f11 f12 f13 f14 f15";
    let row = parse_trade(line).unwrap();
    assert_eq!(row.fields.len(), 15);
    assert_eq!(row.fields[12], "f12");
    assert_eq!(row.fields[13], "");
    assert_eq!(row.fields[14], "");
}

#[test]
fn other_tags_are_unsupported() {
    assert_eq!(normalize("FX", QUOTE), Err(Error::UnsupportedRecordType));
    assert_eq!(normalize("", QUOTE), Err(Error::UnsupportedRecordType));
    assert_eq!(normalize("F", QUOTE), Err(Error::UnsupportedRecordType));
    assert_eq!(normalize("F@ ", QUOTE), Err(Error::UnsupportedRecordType));
    assert_eq!(normalize("f@", QUOTE), Err(Error::UnsupportedRecordType));
}

#[test]
fn leading_tag_is_the_first_two_characters() {
    assert_eq!(leading_tag(QUOTE), "F@");
    assert_eq!(leading_tag(TRADE), "FT");
    assert_eq!(leading_tag("F"), "F");
    assert_eq!(leading_tag(""), "");
}

#[test]
fn normalize_line_goes_by_the_leading_tag() {
    assert_eq!(normalize_line(QUOTE), normalize("F@", QUOTE));
    assert_eq!(normalize_line(TRADE), normalize("FT", TRADE));
    assert_eq!(normalize_line("XX 1 2"), Err(Error::UnsupportedRecordType));
    assert_eq!(normalize_line(""), Err(Error::UnsupportedRecordType));
    assert_eq!(normalize_line("F@ 1 2"), Err(Error::MalformedRecord));
}

#[test]
fn rows_compare_by_their_fields() {
    let a = Row { fields: owned(&["x"]) };
    let b = Row { fields: owned(&["x"]) };
    assert_eq!(a, b);
}
