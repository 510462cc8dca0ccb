use reqline::QueryString;
use reqline::QueryStringValue;

fn expect_single(q: &QueryString, key: &str, value: &str) {
    match q.get(key) {
        Some(QueryStringValue::Single(v)) => assert_eq!(v.as_str(), value),
        other => panic!("expected Single for {:?}, got {:?}", key, other),
    }
}

fn expect_multiple(q: &QueryString, key: &str, values: &[&str]) {
    match q.get(key) {
        Some(QueryStringValue::Multiple(vs)) => {
            assert_eq!(vs.len(), values.len());
            for (got, want) in vs.iter().zip(values.iter()) {
                assert_eq!(got.as_str(), *want);
            }
        }
        other => panic!("expected Multiple for {:?}, got {:?}", key, other),
    }
}

#[test]
fn single_pair() {
    let q = QueryString::from("k=v");
    expect_single(&q, "k", "v");
}

#[test]
fn repeated_key_keeps_both_values_in_order() {
    let q = QueryString::from("k=v1&x=9&k=v2");
    expect_multiple(&q, "k", &["v1", "v2"]);
    expect_single(&q, "x", "9");
}

#[test]
fn three_occurrences_accumulate_in_encounter_order() {
    let q = QueryString::from("k=a&k=b&k=c");
    expect_multiple(&q, "k", &["a", "b", "c"]);
}

#[test]
fn subquery_without_equals_is_all_key() {
    let q = QueryString::from("flag");
    expect_single(&q, "flag", "");
}

#[test]
fn mixed_subqueries_with_and_without_equals() {
    let q = QueryString::from("a&b=1");
    expect_single(&q, "a", "");
    expect_single(&q, "b", "1");
}

#[test]
fn trailing_ampersand_yields_empty_key_and_value() {
    let q = QueryString::from("a=1&");
    expect_single(&q, "a", "1");
    expect_single(&q, "", "");
}

#[test]
fn empty_text_yields_one_empty_key() {
    let q = QueryString::from("");
    expect_single(&q, "", "");
}

#[test]
fn leading_equals_yields_empty_key_with_value() {
    let q = QueryString::from("=x");
    expect_single(&q, "", "x");
}

#[test]
fn value_keeps_later_equals_signs() {
    let q = QueryString::from("k=a=b");
    expect_single(&q, "k", "a=b");
}

#[test]
fn absent_key_is_none() {
    let q = QueryString::from("a=1&b=2");
    assert!(q.get("c").is_none());
    assert!(q.get("A").is_none());
}
