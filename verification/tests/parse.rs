use average_overlay::parse::{parse_input_list, split_on, trim_ascii};
use average_overlay::OverlayError;

fn bytes(s: &str) -> Vec<u8> {
    s.as_bytes().to_vec()
}

fn parse(s: &str) -> Result<Vec<Vec<u8>>, OverlayError> {
    parse_input_list(&bytes(s))
}

#[test]
fn single_path_is_rejected() {
    let result = parse("image1.dep");
    assert!(matches!(result, Err(OverlayError::InvalidInput)));
}

#[test]
fn empty_string_is_rejected() {
    let result = parse("");
    assert!(matches!(result, Err(OverlayError::InvalidInput)));
}

#[test]
fn semicolon_separated_paths() {
    let paths = parse("image1.dep;image2.dep;image3.dep").unwrap();
    assert_eq!(
        paths,
        vec![bytes("image1.dep"), bytes("image2.dep"), bytes("image3.dep")]
    );
}

#[test]
fn comma_fallback_when_no_semicolon() {
    let paths = parse("a.dep,b.dep").unwrap();
    assert_eq!(paths, vec![bytes("a.dep"), bytes("b.dep")]);
}

#[test]
fn semicolons_take_precedence_over_commas() {
    let paths = parse("a,b;c").unwrap();
    assert_eq!(paths, vec![bytes("a,b"), bytes("c")]);
}

#[test]
fn tokens_are_trimmed_and_empty_tokens_dropped() {
    let paths = parse(" a.dep ;; \t b.dep \n").unwrap();
    assert_eq!(paths, vec![bytes("a.dep"), bytes("b.dep")]);
}

#[test]
fn separator_alone_is_rejected() {
    let result = parse(";");
    assert!(matches!(result, Err(OverlayError::InvalidInput)));
}

#[test]
fn one_usable_path_is_rejected() {
    let result = parse("only.dep;");
    assert!(matches!(result, Err(OverlayError::InvalidInput)));
}

#[test]
fn split_keeps_empty_tokens() {
    let tokens = split_on(&bytes("a;;b"), b';');
    assert_eq!(tokens, vec![bytes("a"), bytes(""), bytes("b")]);
}

#[test]
fn trim_removes_ascii_whitespace_only_at_the_ends() {
    assert_eq!(trim_ascii(&bytes("\t x y \r\n")), bytes("x y"));
    assert_eq!(trim_ascii(&bytes("")), bytes(""));
    assert_eq!(trim_ascii(&bytes("   ")), bytes(""));
    assert_eq!(trim_ascii(&bytes("plain")), bytes("plain"));
}
