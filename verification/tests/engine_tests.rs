//! The comparison and hash engine: case-insensitive equality, the total
//! order, hashing consistent with equality, and extension guessing.

use std::cmp::Ordering;

use mr_mime::{Mime, Name, SubtypeIntern, TypeIntern};

fn text_plain() -> Mime<'static> {
    Mime::new(
        Name::Interned(TypeIntern::Text),
        Name::Interned(SubtypeIntern::Plain),
        None,
        &[],
    )
}

fn text_html() -> Mime<'static> {
    Mime::new(
        Name::Interned(TypeIntern::Text),
        Name::Interned(SubtypeIntern::Html),
        None,
        &[],
    )
}

#[test]
fn constructing_from_component_text_matches_parsing() {
    let m = Mime::new("text".into(), "plain".into(), None, &[]);
    assert_eq!(m, text_plain());
    let with_params = Mime::new("text".into(), "plain".into(), None, &[("charset", "utf-8")]);
    assert_eq!(with_params, Mime::parse("text/plain; charset=utf-8").unwrap());
}

#[test]
fn parse_equals_registry_constant_whatever_the_case() {
    assert_eq!(Mime::parse("text/plain").unwrap(), text_plain());
    assert_eq!(Mime::parse("TeXt/PLAIN").unwrap(), text_plain());
    assert_eq!(Mime::parse("text/plain").unwrap(), Mime::parse("TeXt/PLAIN").unwrap());
}

#[test]
fn different_subtypes_are_unequal() {
    assert_ne!(Mime::parse("text/html").unwrap(), Mime::parse("text/plain").unwrap());
}

#[test]
fn essence_drops_suffix_and_parameters() {
    let m = Mime::parse("text/plain; charset=utf-8").unwrap();
    assert_eq!(m.parameters(), vec![("charset", "utf-8")]);
    assert_eq!(m.essence(), Mime::parse("text/plain").unwrap());
    let s = Mime::parse("image/svg+xml").unwrap();
    assert_eq!(s.essence(), Mime::parse("image/svg").unwrap());
}

#[test]
fn equality_ignores_case_of_parameter_keys_only() {
    let a = Mime::parse("text/plain; Charset=utf-8").unwrap();
    let b = Mime::parse("TEXT/PLAIN; charset=utf-8").unwrap();
    assert_eq!(a, b);
    let c = Mime::parse("text/plain; charset=UTF-8").unwrap();
    assert_ne!(a, c);
}

#[test]
fn trailing_parameters_make_values_unequal() {
    let a = Mime::parse("text/plain; a=b").unwrap();
    let b = Mime::parse("text/plain; a=b; c=d").unwrap();
    assert_ne!(a, b);
}

#[test]
fn order_is_stable_across_repeated_evaluations() {
    let a = Mime::parse("text/html").unwrap();
    let b = Mime::parse("text/plain").unwrap();
    let first = a.compare(&b);
    let second = a.compare(&b);
    assert_eq!(first, second);
    assert_eq!(first, Ordering::Less);
    assert_eq!(b.compare(&a), Ordering::Greater);
    assert_eq!(a.compare(&a), Ordering::Equal);
}

#[test]
fn order_compares_shared_prefix_then_length() {
    let a = Mime::parse("text/ab").unwrap();
    let b = Mime::parse("text/abc").unwrap();
    assert_eq!(a.compare(&b), Ordering::Less);
    let c = Mime::parse("text/AB").unwrap();
    assert_eq!(a.compare(&c), Ordering::Equal);
    assert!(a <= b);
    assert!(b > a);
}

#[test]
fn parameters_order_after_the_head() {
    let bare = Mime::parse("text/plain").unwrap();
    let one = Mime::parse("text/plain; a=b").unwrap();
    let other = Mime::parse("text/plain; a=c").unwrap();
    assert_eq!(bare.compare(&one), Ordering::Less);
    assert_eq!(one.compare(&other), Ordering::Less);
    assert_eq!(one.compare(&Mime::parse("text/plain; A=b").unwrap()), Ordering::Equal);
}

#[test]
fn absent_suffix_sorts_before_present() {
    let a = Mime::parse("image/svg").unwrap();
    let b = Mime::parse("image/svg+xml").unwrap();
    assert_eq!(a.compare(&b), Ordering::Less);
    assert_ne!(a, b);
}

#[test]
fn equal_values_hash_equal_interned_vs_dynamic() {
    let interned = text_plain();
    let dynamic = Mime::new(Name::Dynamic("TeXt"), Name::Dynamic("PlAiN"), None, &[]);
    assert_eq!(interned, dynamic);
    assert_eq!(interned.hash_value(), dynamic.hash_value());
}

#[test]
fn equal_values_hash_equal_with_parameters() {
    let a = Mime::parse("text/plain; Charset=utf-8").unwrap();
    let b = Mime::parse("TEXT/Plain; charset=utf-8").unwrap();
    assert_eq!(a, b);
    assert_eq!(a.hash_value(), b.hash_value());
}

#[test]
fn equal_long_values_hash_equal() {
    let long_lower = "text/x-aaaaaaaaaaaaaaaaaaaaaaaaaaaaaaaaaaaaaaaaaaaaaaaaaaaaaaaaaaaaaaaaaaaaaaaaaaaaaaaaaaaaaaaaaaaaaaaaaaaaaaaaaaaaaaaaaaaaaaaaaaaaaaaaaaaa";
    let long_upper = "text/X-AAAAAAAAAAAAAAAAAAAAAAAAAAAAAAAAAAAAAAAAAAAAAAAAAAAAAAAAAAAAAAAAAAAAAAAAAAAAAAAAAAAAAAAAAAAAAAAAAAAAAAAAAAAAAAAAAAAAAAAAAAAAAAAAAAAA";
    let a = Mime::parse(long_lower).unwrap();
    let b = Mime::parse(long_upper).unwrap();
    assert_eq!(a, b);
    assert_eq!(a.hash_value(), b.hash_value());
}

#[test]
fn guess_knows_html_and_rejects_unknown() {
    let hits = Mime::guess("html");
    assert!(!hits.is_empty());
    assert!(hits.iter().any(|m| *m == text_html()));
    assert!(Mime::guess("zzz_unknown").is_empty());
}

#[test]
fn guess_ignores_case_and_knows_more_extensions() {
    assert_eq!(Mime::guess("HTML"), Mime::guess("html"));
    assert_eq!(Mime::guess("htm")[0], text_html());
    assert_eq!(Mime::guess("txt")[0], text_plain());
    assert_eq!(Mime::guess("svg")[0], Mime::parse("image/svg+xml").unwrap());
    assert_eq!(Mime::guess("xml").len(), 2);
}

#[test]
fn render_then_reparse_gives_equal_value() {
    let cases = [
        "text/plain",
        "TeXt/PLAIN",
        "image/svg+xml",
        "text/plain; charset=utf-8",
        "a/b; k=v; x=y",
    ];
    for case in cases {
        let m = Mime::parse(case).unwrap();
        let text = m.to_text();
        let back = Mime::parse(&text).unwrap();
        assert_eq!(back, m);
    }
}

#[test]
fn to_text_renders_components() {
    let m = Mime::parse("TeXt/PLAIN").unwrap();
    assert_eq!(m.to_text(), "text/plain");
    let d = Mime::parse("text/plain; charset=utf-8").unwrap();
    assert_eq!(d.to_text(), "text/plain;charset=utf-8");
}

#[test]
fn textual_equality_splits_like_the_engine() {
    let m = Mime::parse("text/plain;charset=utf-8").unwrap();
    assert!(m.matches_str("text/plain;charset=utf-8"));
    assert!(m.matches_str("TEXT/PLAIN;CHARSET=utf-8"));
    assert!(!m.matches_str("text/plain;charset=UTF-8"));
    assert!(!m.matches_str("text/plain"));
    assert!(!m.matches_str("text/plain;charset=utf-8;x=y"));
}

#[test]
fn textual_equality_rejects_trailing_text() {
    let m = Mime::parse("text/plain").unwrap();
    assert!(m.matches_str("text/plain"));
    assert!(m.matches_str("TEXT/plain"));
    assert!(!m.matches_str("text/plainX"));
    assert!(!m.matches_str("text/plai"));
}

#[test]
fn suffix_matches_in_textual_equality() {
    let m = Mime::parse("image/svg+xml").unwrap();
    assert!(m.matches_str("image/svg+xml"));
    assert!(m.matches_str("IMAGE/SVG+XML"));
    assert!(!m.matches_str("image/svg"));
}

#[test]
fn equal_names_hash_equal() {
    let interned: mr_mime::Subtype = Name::Interned(SubtypeIntern::Plain);
    let dynamic: mr_mime::Subtype = Name::Dynamic("PLAIN");
    assert_eq!(interned, dynamic);
    assert_eq!(interned.hash_value(), dynamic.hash_value());
}

#[test]
fn names_compare_case_insensitively_across_shapes() {
    let interned: mr_mime::Subtype = Name::Interned(SubtypeIntern::Plain);
    let dynamic: mr_mime::Subtype = Name::Dynamic("PLAIN");
    assert_eq!(interned, dynamic);
    assert!(Name::<TypeIntern>::new("text") == Name::Dynamic("TEXT"));
}
