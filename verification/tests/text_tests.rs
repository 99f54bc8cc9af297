use moot::text::{sanitize_content, sanitize_would_fit, str_eq, validate_address, validate_signature_format};

#[test]
fn sanitize_strips_tags_and_trims() {
    assert_eq!(sanitize_content("  <b>Hello</b> world  "), "Hello world");
}

#[test]
fn sanitize_drops_script_elements() {
    assert_eq!(sanitize_content("<script>alert(\"XSS\")</script>Hello"), "Hello");
    assert_eq!(sanitize_content("a<SCRIPT type=x>bad()</Script>b"), "ab");
    assert_eq!(sanitize_content("keep <script>never closed"), "keep");
    assert_eq!(sanitize_content("<b>bold</b> and <i>it</i>"), "bold and it");
}

#[test]
fn sanitize_drops_unclosed_tag_tail() {
    assert_eq!(sanitize_content("keep <this is dropped"), "keep");
}

#[test]
fn sanitize_stray_closing_bracket_is_dropped() {
    assert_eq!(sanitize_content("a > b"), "a  b");
}

#[test]
fn sanitize_empty_after_stripping() {
    assert_eq!(sanitize_content("<p>   </p>"), "");
}

#[test]
fn sanitize_cuts_to_ten_thousand_bytes() {
    let long = "x".repeat(12000);
    let out = sanitize_content(&long);
    assert_eq!(out.len(), 10000);
}

#[test]
fn sanitize_cut_on_multibyte_boundary() {
    // 5000 two-byte characters are exactly 10000 bytes; more are cut off.
    let long = "é".repeat(6000);
    assert!(sanitize_would_fit(&long));
    let out = sanitize_content(&long);
    assert_eq!(out.len(), 10000);
    assert_eq!(out.chars().count(), 5000);
}

#[test]
fn sanitize_fit_fails_inside_a_character() {
    // 9999 one-byte characters and then a two-byte one: byte 10000 falls inside it.
    let mut text = "a".repeat(9999);
    text.push_str(&"é".repeat(10));
    assert!(!sanitize_would_fit(&text));
}

#[test]
fn sanitize_is_idempotent_on_sample() {
    let once = sanitize_content("  <i>x</i> y <z");
    let twice = sanitize_content(&once);
    assert_eq!(once, twice);
    assert_eq!(once, "x y");
}

#[test]
fn sanitize_output_has_no_brackets() {
    let out = sanitize_content("a<b>c>d<e");
    assert!(!out.contains('<') && !out.contains('>'));
    assert_eq!(out, "acd");
}

#[test]
fn address_valid() {
    assert!(validate_address("0x1234567890abcdef1234567890abcdef12345678"));
    assert!(validate_address("0xABCDEF7890abcdef1234567890abcdef12345678"));
}

#[test]
fn address_invalid() {
    assert!(!validate_address("invalid_address"));
    assert!(!validate_address("0x1234567890abcdef1234567890abcdef1234567"));
    assert!(!validate_address("0x1234567890abcdef1234567890abcdef123456789"));
    assert!(!validate_address("1x1234567890abcdef1234567890abcdef12345678"));
    assert!(!validate_address("0x1234567890abcdef1234567890abcdef1234567g"));
    assert!(!validate_address("0xTestUser"));
}

#[test]
fn signature_format() {
    assert!(validate_signature_format(&"ab".repeat(64)));
    assert!(!validate_signature_format(&"ab".repeat(63)));
    assert!(!validate_signature_format(&"zz".repeat(64)));
}

#[test]
fn str_eq_compares_text() {
    assert!(str_eq("abc", "abc"));
    assert!(!str_eq("abc", "abd"));
    assert!(!str_eq("abc", "ab"));
}
