use ergogen::kle::{first_non_empty_label, is_kle_meta_map, key_nets, split_labels};

fn v(x: &[&str]) -> Vec<String> {
    x.iter().map(|s| s.to_string()).collect()
}

#[test]
fn first_label_skips_empty_ones() {
    assert_eq!(first_non_empty_label(&v(&["", "", "Q", "W"])), "Q");
    assert_eq!(first_non_empty_label(&v(&["", ""])), "");
    assert_eq!(first_non_empty_label(&[]), "");
}

#[test]
fn labels_split_at_newlines() {
    assert_eq!(split_labels("a\n\nb"), v(&["a", "", "b"]));
    assert_eq!(split_labels(""), v(&[""]));
    assert_eq!(split_labels("x\n"), v(&["x", ""]));
}

#[test]
fn metadata_rows() {
    assert!(is_kle_meta_map(&v(&["name", "background"])));
    assert!(is_kle_meta_map(&v(&["notes"])));
    assert!(!is_kle_meta_map(&v(&["name", "x"])));
    assert!(!is_kle_meta_map(&v(&["background"])));
    assert!(!is_kle_meta_map(&[]));
}

#[test]
fn label_nets() {
    assert_eq!(key_nets("key3", "2_5"), ("row_2".to_string(), "col_5".to_string()));
    assert_eq!(key_nets("key3", "2_5_1"), ("key3".to_string(), "GND".to_string()));
    assert_eq!(key_nets("key3", "_5"), ("key3".to_string(), "GND".to_string()));
    assert_eq!(key_nets("key3", "Q"), ("key3".to_string(), "GND".to_string()));
}
