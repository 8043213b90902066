use chain_params::Parameters;
use chain_params::Param;
use chain_params::ParamFull;
use chain_params::StringParam;

#[test]
fn empty_store_has_no_entries() {
    let p = Parameters::new();
    assert_eq!(p.get("missing"), None);
    assert_eq!(p.get_text(), None);
}

#[test]
fn with_then_get_returns_the_value() {
    let p = Parameters::new();
    let q = p.with("k".to_string(), "v".to_string());
    assert_eq!(q.get("k"), Some("v".to_string()));
}

#[test]
fn with_replaces_an_existing_key() {
    let p = Parameters::new()
        .with("k".to_string(), "old".to_string())
        .with("k".to_string(), "new".to_string());
    assert_eq!(p.get("k"), Some("new".to_string()));
}

#[test]
fn with_text_fills_the_reserved_slot() {
    let p = Parameters::new_with_text("Hello world!".to_string());
    assert_eq!(p.get_text(), Some("Hello world!".to_string()));
    assert_eq!(p.get("text"), Some("Hello world!".to_string()));
}

#[test]
fn with_text_leaves_unrelated_keys_alone() {
    let p = Parameters::new().with("name".to_string(), "John Doe".to_string());
    let q = p.with_text("greeting".to_string());
    assert_eq!(q.get("name"), p.get("name"));
    assert_eq!(q.get_text(), Some("greeting".to_string()));
    assert_eq!(p.get_text(), None);
}

#[test]
fn combine_keeps_disjoint_keys() {
    let a = Parameters::from(vec![("a", "1")]);
    let b = Parameters::from(vec![("b", "2")]);
    let c = a.combine(&b);
    assert_eq!(c.get("a"), Some("1".to_string()));
    assert_eq!(c.get("b"), Some("2".to_string()));
}

#[test]
fn combine_prefers_the_right_store() {
    let a = Parameters::new_with_text("x".to_string());
    let b = Parameters::new_with_text("y".to_string());
    assert_eq!(a.combine(&b).get_text(), Some("y".to_string()));
}

#[test]
fn derivations_are_independent() {
    let p1 = Parameters::new();
    let p2 = p1.with("k".to_string(), "v".to_string());
    let _p3 = p1.with("k".to_string(), "other".to_string());
    let _p4 = p1.with("z".to_string(), "1".to_string());
    assert_eq!(p2.get("k"), Some("v".to_string()));
    let _p5 = p2.with("k".to_string(), "shadow".to_string());
    assert_eq!(p2.get("k"), Some("v".to_string()));
    assert_eq!(p1.get("k"), None);
}

#[test]
fn equality_ignores_how_a_value_was_supplied() {
    let base = Parameters::new();
    let literal = base.with("n".to_string(), "42".to_string());
    let dynamic = base.with_dynamic("n".to_string(), StringParam::new("42".to_string()));
    assert!(literal == dynamic);
    let other = base.with_dynamic("n".to_string(), StringParam::new("43".to_string()));
    assert!(literal != other);
}

#[test]
fn equality_compares_key_sets() {
    let a = Parameters::new().with("a".to_string(), "1".to_string());
    let b = a.with("b".to_string(), "2".to_string());
    assert!(a != b);
    assert!(b != a);
    assert!(a == a.clone());
}

#[test]
fn conversion_from_a_single_string() {
    let p = Parameters::from("hello");
    assert_eq!(p.get_text(), Some("hello".to_string()));
    let q = Parameters::from("hello".to_string());
    assert_eq!(q.get_text(), Some("hello".to_string()));
    assert!(p == q);
}

#[test]
fn conversion_from_pairs() {
    let p = Parameters::from(vec![("a", "1"), ("b", "2")]);
    assert_eq!(p.get("a"), Some("1".to_string()));
    assert_eq!(p.get("b"), Some("2".to_string()));
    let same_two_keys = Parameters::new()
        .with("a".to_string(), "1".to_string())
        .with("b".to_string(), "2".to_string());
    assert!(p == same_two_keys);
}

#[test]
fn conversion_from_owned_pairs() {
    let p = Parameters::from(vec![
        ("text".to_string(), "Hello world!".to_string()),
        ("name".to_string(), "John Doe".to_string()),
    ]);
    assert_eq!(p.get("text"), Some("Hello world!".to_string()));
    assert_eq!(p.get("name"), Some("John Doe".to_string()));
}

#[test]
fn later_pairs_override_earlier_ones() {
    let p = Parameters::from(vec![("a", "1"), ("a", "2")]);
    assert_eq!(p.get("a"), Some("2".to_string()));
}

#[test]
fn optional_text_none_changes_nothing() {
    let p = Parameters::new().with("name".to_string(), "John Doe".to_string());
    let before = p.get_text();
    let q = p.with_optional_text(None);
    assert_eq!(q.get_text(), before);
    assert!(p == q);
}

#[test]
fn optional_text_some_behaves_as_with_text() {
    let p = Parameters::new();
    let q = p.with_optional_text(Some("output".to_string()));
    assert_eq!(q.get_text(), Some("output".to_string()));
}

#[test]
fn string_param_renders_to_its_value() {
    let p = StringParam::new("payload".to_string());
    assert_eq!(p.get(), "payload".to_string());
    let d = p.boxed_clone();
    assert_eq!(d.get(), "payload".to_string());
}

#[test]
fn default_store_is_empty() {
    let p: Parameters = Default::default();
    assert!(p == Parameters::new());
}

#[test]
fn projection_carries_every_entry() {
    let p = Parameters::new()
        .with("name".to_string(), "John".to_string())
        .with_text("world".to_string());
    let ctx = p.to_tera();
    assert_eq!(ctx.get("name").unwrap().as_str(), Some("John"));
    assert_eq!(ctx.get("text").unwrap().as_str(), Some("world"));
    assert_eq!(ctx.get("missing"), None);
}

#[test]
fn projection_renders_through_the_engine() {
    let p = Parameters::new().with("name".to_string(), "John Doe".to_string());
    let ctx = p.to_tera();
    let rendered = tera::Tera::one_off("Hello {{ name }}!", &ctx, false).unwrap();
    assert_eq!(rendered, "Hello John Doe!".to_string());
}

#[test]
fn combining_with_a_single_pair_equals_insert() {
    let p = Parameters::from(vec![("a", "1")]);
    let single = Parameters::from(vec![("k", "v")]);
    let combined = p.combine(&single);
    let inserted = p.with("k".to_string(), "v".to_string());
    assert!(combined == inserted);
}

#[test]
fn stores_can_be_debug_formatted() {
    let p = Parameters::new_with_text("Hello world!".to_string());
    let printed = format!("{:?}", p);
    assert!(printed.contains("text"));
    assert!(printed.contains("Hello world!"));
}
