use tg_snatch::security::{
    mask_token, sanitize_filename, validate_https_url, validate_token_format,
};

#[test]
fn sanitize_normal_filename() {
    assert_eq!(sanitize_filename("report.pdf"), "report.pdf");
}

#[test]
fn sanitize_path_traversal() {
    assert_eq!(sanitize_filename("../../etc/passwd"), "passwd");
    assert_eq!(sanitize_filename("../../../secret.txt"), "secret.txt");
}

#[test]
fn sanitize_null_bytes() {
    assert_eq!(sanitize_filename("file\0.pdf"), "file.pdf");
}

#[test]
fn sanitize_directory_separators() {
    let result = sanitize_filename("dir/file.pdf");
    assert_eq!(result, "file.pdf");
    let result = sanitize_filename("dir\\file.pdf");
    assert!(result == "file.pdf" || result == "dir_file.pdf");
}

#[test]
fn sanitize_special_chars() {
    assert_eq!(sanitize_filename("file<>.pdf"), "file__.pdf");
}

#[test]
fn sanitize_dot_only() {
    assert_eq!(sanitize_filename("..."), "unnamed");
    assert_eq!(sanitize_filename("."), "unnamed");
}

#[test]
fn sanitize_empty() {
    assert_eq!(sanitize_filename(""), "unnamed");
}

#[test]
fn sanitize_long_filename() {
    let long_name = "a".repeat(300) + ".pdf";
    let result = sanitize_filename(&long_name);
    assert!(result.len() <= 200);
    assert!(result.ends_with(".pdf"));
}

#[test]
fn mask_token_normal() {
    let result = mask_token("1234567890:ABCDEFghijklmn");
    assert!(result.starts_with("1234"));
    assert!(result.ends_with("klmn"));
    assert!(result.contains('…'));
}

#[test]
fn mask_token_short() {
    assert_eq!(mask_token("short"), "****");
}

#[test]
fn validate_token_valid() {
    assert!(validate_token_format("123456:ABCdef-_123"));
}

#[test]
fn validate_token_invalid_no_colon() {
    assert!(!validate_token_format("nocolon"));
}

#[test]
fn validate_token_invalid_non_numeric_id() {
    assert!(!validate_token_format("abc:secret"));
}

#[test]
fn validate_https() {
    assert!(validate_https_url("https://api.telegram.org/bot123/getMe"));
    assert!(!validate_https_url("http://api.telegram.org/bot123/getMe"));
}

#[test]
fn sanitize_trailing_separators_and_dot_components() {
    assert_eq!(sanitize_filename("dir/file.pdf/"), "file.pdf");
    assert_eq!(sanitize_filename("a/./"), "a");
    assert_eq!(sanitize_filename("a/.."), "unnamed");
    assert_eq!(sanitize_filename("/"), "unnamed");
    assert_eq!(sanitize_filename("..a.."), "a");
    assert_eq!(sanitize_filename("a:b*c?d\"e|f"), "a_b_c_d_e_f");
}

#[test]
fn sanitize_long_name_exact_cut() {
    let long_name = "a".repeat(300) + ".pdf";
    assert_eq!(sanitize_filename(&long_name), "a".repeat(196) + ".pdf");
    let no_ext = "b".repeat(250);
    assert_eq!(sanitize_filename(&no_ext), "b".repeat(199));
    // An extension over 10 bytes is not kept: the name is cut to fit.
    let long_ext = "c".repeat(250) + "." + &"e".repeat(20);
    assert_eq!(sanitize_filename(&long_ext), "c".repeat(189));
    let dotted = "f".repeat(187) + ".." + &"g".repeat(30) + "." + &"h".repeat(11);
    assert_eq!(sanitize_filename(&dotted), "f".repeat(187));
    let exactly = "d".repeat(200);
    assert_eq!(sanitize_filename(&exactly), exactly);
}

#[test]
fn sanitize_multibyte_cut_falls_back_to_a_character_boundary() {
    // 'é' takes two bytes: a cut at byte 196 of 150 of them falls on a boundary;
    // after one leading ASCII byte it would fall inside one, so the cut is made
    // a byte earlier.
    let even = "é".repeat(150) + ".pdf";
    assert_eq!(sanitize_filename(&even), "é".repeat(98) + ".pdf");
    let odd = "x".to_string() + &"é".repeat(150) + ".pdf";
    let r = sanitize_filename(&odd);
    assert_eq!(r, "x".to_string() + &"é".repeat(97) + ".pdf");
    assert!(r.len() <= 200);
}

#[test]
fn mask_token_exact() {
    assert_eq!(mask_token("1234567890:ABCDEFghijklmn"), "1234…klmn");
    assert_eq!(mask_token("0123456789"), "****");
    assert_eq!(mask_token("0123456789a"), "0123…789a");
    // Masking counts characters, not bytes.
    assert_eq!(mask_token("ééééééé"), "****");
    assert_eq!(mask_token("ééééééééééx"), "éééé…éééx");
}

#[test]
fn validate_token_edge_cases() {
    assert!(!validate_token_format(":abc"));
    assert!(validate_token_format("7:a"));
    assert!(!validate_token_format("123:"));
    assert!(!validate_token_format("123:ab:cd"));
    assert!(!validate_token_format("123:ab cd"));
    assert!(!validate_token_format(""));
}

#[test]
fn sanitized_names_are_safe_and_stable() {
    let long_ext = "c".repeat(300) + "." + &"e".repeat(20);
    let long_dots = "d".repeat(195) + "....." + &"e".repeat(50);
    for raw in ["../../etc/passwd", "..", ".hidden.", "a/b\\c:d*e?f\"g<h>i|j", "\0\0", "x/.", long_ext.as_str(), long_dots.as_str()] {
        let s = sanitize_filename(raw);
        assert!(!s.is_empty());
        assert!(!s.contains('/') && !s.contains('\\') && !s.contains('\0'));
        assert!(!s.starts_with('.') && !s.ends_with('.'));
        assert!(s.len() <= 200);
        assert_eq!(sanitize_filename(&s), s);
    }
}

#[test]
fn mask_is_eleven_bytes_for_long_tokens() {
    let m = mask_token("123456789:ABCDEFGHIJKLMNOPQRSTUVWXYZ");
    assert_eq!(m.len(), 11);
    assert_eq!(m, "1234…WXYZ");
    assert_eq!(mask_token("0123456789").len(), 4);
}
