use sl_compiler::collections::NameMap;
use sl_compiler::expr::rewrite::{is_property_access, rewrite_expr_idents};

#[test]
fn rewrite_expr_idents_skips_property_access_and_qualified_refs() {
    let mut renames = NameMap::new();
    renames.insert("temp".to_string(), "temp__1".to_string());
    let rewritten =
        rewrite_expr_idents(r##"temp + obj.temp + helper.temp + "#{temp}""##, &renames)
            .expect("rename");

    assert_eq!(
        rewritten,
        r##"temp__1 + obj.temp + helper.temp + "#{temp}""##
    );
}

#[test]
fn rewrite_expr_idents_with_no_renames_returns_input() {
    let renames: NameMap<String> = NameMap::new();
    assert_eq!(
        rewrite_expr_idents("a + 'unterminated", &renames).expect("identity"),
        "a + 'unterminated"
    );
}

#[test]
fn rewrite_expr_idents_keeps_map_keys() {
    let mut renames = NameMap::new();
    renames.insert("k".to_string(), "k2".to_string());
    assert_eq!(
        rewrite_expr_idents("#{k: k}", &renames).expect("rename"),
        "#{k: k2}"
    );
}

#[test]
fn property_scan_skips_ascii_space_only() {
    let dotted: Vec<char> = ". \t\nx".chars().collect();
    assert!(is_property_access(&dotted, 4));
    let nbsp: Vec<char> = ".\u{a0}x".chars().collect();
    assert!(!is_property_access(&nbsp, 2));
    let plain: Vec<char> = "a x".chars().collect();
    assert!(!is_property_access(&plain, 2));
    assert!(!is_property_access(&plain, 0));
}

#[test]
fn no_break_space_after_dot_leaves_name_renamed() {
    let mut renames = NameMap::new();
    renames.insert("k".to_string(), "k2".to_string());
    assert_eq!(
        rewrite_expr_idents("a.\u{a0}k + b. k", &renames).expect("rename"),
        "a.\u{c2}k2 + b. k"
    );
}

#[test]
fn two_byte_character_outside_quotes_keeps_its_first_byte() {
    let mut renames = NameMap::new();
    renames.insert("y".to_string(), "y2".to_string());
    assert_eq!(
        rewrite_expr_idents("x + \u{e9} + \"\u{e9}\"", &renames).expect("identity"),
        "x + \u{c3} + \"\u{e9}\""
    );
}

#[test]
fn reference_path_segments_join_back_to_the_scanned_text() {
    use_scan();
}

fn use_scan() {
    let src: Vec<char> = "lib.math.zero + x. y".chars().collect();
    let (end, segs) = sl_compiler::expr::scan::scan_reference_path(&src, 0);
    let segs: Vec<String> = segs.into_iter().map(|s| s.into_iter().collect()).collect();
    assert_eq!(end, 13);
    assert_eq!(segs, vec!["lib", "math", "zero"]);
    assert_eq!(segs.join("."), src[..end].iter().collect::<String>());
    let (end2, segs2) = sl_compiler::expr::scan::scan_reference_path(&src, 16);
    assert_eq!(end2, 17);
    assert_eq!(segs2.len(), 1);
}
