use nmm_cli::nix::{parse_prefetch_output, Prefetched};

#[test]
fn prefetch_output_two_lines() {
    let p = parse_prefetch_output("0abc\n/nix/store/xyz-nmm-cli-result\n").expect("two lines");
    assert_eq!(p.sha, "0abc");
    assert_eq!(p.store_path, "/nix/store/xyz-nmm-cli-result");
}

#[test]
fn prefetch_output_single_line_is_none() {
    assert!(parse_prefetch_output("0abc\n").is_none());
    assert!(parse_prefetch_output("").is_none());
    assert!(parse_prefetch_output("  \n \n ").is_none());
}

#[test]
fn prefetch_output_extra_lines_ignored() {
    let p = parse_prefetch_output("a\nb\nc").unwrap();
    assert_eq!(p.sha, "a");
    assert_eq!(p.store_path, "b");
}

#[test]
fn prefetch_output_inner_spaces_kept() {
    let p = parse_prefetch_output("  h \n p ").unwrap();
    assert_eq!(p.sha, "h ");
    assert_eq!(p.store_path, " p");
    let p = parse_prefetch_output("\n\nh\n\np").unwrap();
    assert_eq!(p.sha, "h");
    assert_eq!(p.store_path, "");
}

#[test]
fn prefetched_clone() {
    let p = Prefetched { sha: "s".to_string(), store_path: "/p".to_string() };
    let q = p.clone();
    assert_eq!(q.sha, "s");
    assert_eq!(q.store_path, "/p");
}
