//! Parsing: structural splitting, the three error kinds, and the accessors.

use mr_mime::{Mime, Name, ParseError};

#[test]
fn parse_simple_pair_reads_back_both_halves() {
    let m = Mime::parse("foo/bar").unwrap();
    assert_eq!(m.ty().into_str(), "foo");
    assert_eq!(m.subtype().into_str(), "bar");
    assert!(m.suffix().is_none());
    assert_eq!(m.parameters(), Vec::<(&str, &str)>::new());
}

#[test]
fn parse_recognized_pair_renders_canonically() {
    let m = Mime::parse("TeXt/PLAIN").unwrap();
    assert_eq!(m.ty().into_str(), "text");
    assert_eq!(m.subtype().into_str(), "plain");
}

#[test]
fn parse_no_slash_fails() {
    assert_eq!(Mime::parse("noslash"), Err(ParseError::NoSlash));
}

#[test]
fn parse_missing_type_fails() {
    assert_eq!(Mime::parse("/plain"), Err(ParseError::MissingType));
}

#[test]
fn parse_missing_subtype_fails() {
    assert_eq!(Mime::parse("text/"), Err(ParseError::MissingSubtype));
}

#[test]
fn parse_empty_input_fails() {
    assert_eq!(Mime::parse(""), Err(ParseError::NoSlash));
}

#[test]
fn parse_suffix_is_split_off() {
    let m = Mime::parse("image/svg+xml").unwrap();
    assert_eq!(m.ty().into_str(), "image");
    assert_eq!(m.subtype().into_str(), "svg");
    assert_eq!(m.suffix().unwrap().into_str(), "xml");
}

#[test]
fn parse_single_parameter() {
    let m = Mime::parse("text/plain; charset=utf-8").unwrap();
    assert_eq!(m.parameters(), vec![("charset", "utf-8")]);
}

#[test]
fn parse_parameters_trim_whitespace() {
    let m = Mime::parse("text/plain; a = b ;c=d").unwrap();
    assert_eq!(m.parameters(), vec![("a", "b"), ("c", "d")]);
}

#[test]
fn parse_parameters_are_recomputed_identically() {
    let m = Mime::parse("text/plain; charset=utf-8; format=flowed").unwrap();
    let first = m.parameters();
    let second = m.parameters();
    assert_eq!(first, second);
    assert_eq!(first, vec![("charset", "utf-8"), ("format", "flowed")]);
}

#[test]
fn parse_parameter_without_equals_has_empty_value() {
    let m = Mime::parse("text/plain; charset").unwrap();
    assert_eq!(m.parameters(), vec![("charset", "")]);
}

#[test]
fn parse_empty_parameter_segment() {
    let m = Mime::parse("a/b;").unwrap();
    assert_eq!(m.parameters(), vec![("", "")]);
}

#[test]
fn parse_deferred_value_still_exposes_components() {
    let m = Mime::parse("image/svg+xml; a=b").unwrap();
    assert_eq!(m.ty().into_str(), "image");
    assert_eq!(m.subtype().into_str(), "svg");
    assert_eq!(m.suffix().unwrap().into_str(), "xml");
    assert_eq!(m.parameters(), vec![("a", "b")]);
}

#[test]
fn plus_after_semicolon_is_not_a_suffix() {
    let m = Mime::parse("text/plain; a=b+c").unwrap();
    assert!(m.suffix().is_none());
    assert_eq!(m.subtype().into_str(), "plain");
    assert_eq!(m.parameters(), vec![("a", "b+c")]);
}

#[test]
fn empty_suffix_after_plus_is_accepted_verbatim() {
    let m = Mime::parse("a/b+").unwrap();
    assert_eq!(m.subtype().into_str(), "b");
    assert_eq!(m.suffix().unwrap().into_str(), "");
    let d = Mime::parse("a/b+;k=v").unwrap();
    assert_eq!(d.suffix().unwrap().into_str(), "");
}

#[test]
fn non_ascii_components_pass_through() {
    let m = Mime::parse("té/xt").unwrap();
    assert_eq!(m.ty().into_str(), "té");
    assert_eq!(m.subtype().into_str(), "xt");
}

#[test]
fn error_messages_name_the_failure() {
    assert_eq!(ParseError::NoSlash.message(), "no slash in MIME type");
    assert_eq!(ParseError::MissingType.message(), "missing MIME type");
    assert_eq!(ParseError::MissingSubtype.message(), "missing MIME subtype");
}

#[test]
fn name_resolution_hits_render_canonical_spelling() {
    let n: mr_mime::Type = Name::new("TEXT");
    assert_eq!(n.into_str(), "text");
}

#[test]
fn name_resolution_misses_render_verbatim() {
    let n: mr_mime::Type = Name::new("TeXtUaL");
    assert_eq!(n.into_str(), "TeXtUaL");
}
