use cli_utils::strip::{plan_renames, strip_post_ext};

#[test]
fn test_strip() {
    let new_name = strip_post_ext("asdfasdf.mkv?jekfja", ".mkv");
    assert_eq!(new_name.unwrap(), "asdfasdf.mkv");
}

#[test]
fn strip_skips_name_ending_in_suffix() {
    assert!(strip_post_ext("foo.mkv", ".mkv").is_none());
}

#[test]
fn strip_skips_name_without_suffix() {
    assert!(strip_post_ext("foo.avi", ".mkv").is_none());
    assert!(strip_post_ext("", ".mkv").is_none());
}

#[test]
fn strip_cuts_after_first_occurrence() {
    assert_eq!(strip_post_ext("a.mkv.b.mkv.c", ".mkv").unwrap(), "a.mkv");
    assert_eq!(strip_post_ext("a.mkv.mkv", ".mkv").unwrap(), "a.mkv");
}

#[test]
fn strip_handles_non_ascii_names() {
    assert_eq!(strip_post_ext("été.mkv☃x", ".mkv").unwrap(), "été.mkv");
    assert_eq!(strip_post_ext("x.ß?q", ".ß").unwrap(), "x.ß");
}

#[test]
fn strip_with_empty_suffix() {
    assert_eq!(strip_post_ext("abc", "").unwrap(), "");
    assert!(strip_post_ext("", "").is_none());
}

fn names(v: &[&str]) -> Vec<String> {
    v.iter().map(|s| s.to_string()).collect()
}

#[test]
fn renames_in_order_and_skip_others() {
    let files = names(&["a.mkv?x", "b.mkv", "c.txt", "d.mkv.part"]);
    let r = plan_renames(&files, ".mkv", false);
    assert_eq!(r.len(), 2);
    assert_eq!(r[0].from, "a.mkv?x");
    assert_eq!(r[0].to, "a.mkv");
    assert!(r[0].perform);
    assert_eq!(r[1].from, "d.mkv.part");
    assert_eq!(r[1].to, "d.mkv");
    assert!(r[1].perform);
}

#[test]
fn dry_run_reports_every_rename_and_performs_none() {
    let files = names(&["a.mkv?x", "b.mkv", "d.mkv.part"]);
    let real = plan_renames(&files, ".mkv", false);
    let dry = plan_renames(&files, ".mkv", true);
    assert_eq!(dry.len(), real.len());
    for (d, w) in dry.iter().zip(real.iter()) {
        assert_eq!(d.from, w.from);
        assert_eq!(d.to, w.to);
        assert!(!d.perform);
        assert!(w.perform);
    }
}

#[test]
fn repeated_file_is_renamed_once() {
    let files = names(&["a.mkv1", "a.mkv1"]);
    let r = plan_renames(&files, ".mkv", false);
    assert_eq!(r.len(), 1);
}

#[test]
fn no_files_no_renames() {
    assert!(plan_renames(&Vec::new(), ".mkv", false).is_empty());
}
