use cardv_backup::order::{bytes_lt, key_bytes_lt, path_lt};
use cardv_backup::files::{
    ends_with_video_suffix, enumerate, is_video, resume_after, sort_by_path, Candidate,
    FilesystemError,
};

fn cand(name: &str) -> Candidate {
    Candidate { path: format!("E:\\CARDV\\Movie\\{}", name), name: name.to_string() }
}

fn listing(names: &[&str]) -> Vec<Option<Candidate>> {
    names.iter().map(|n| Some(cand(n))).collect()
}

fn names(v: &[Candidate]) -> Vec<String> {
    v.iter().map(|c| c.name.clone()).collect()
}

#[test]
fn mixed_case_listing_resumes_after_marker() {
    let marker = cand("B.MP4").path;
    let (all, skipped) =
        enumerate(listing(&["a.mp4", "B.MP4", "c.txt", "d.mp4"]), None).unwrap();
    assert_eq!(names(&all), vec!["a.mp4", "B.MP4", "d.mp4"]);
    assert_eq!(skipped, 0);
    let (left, skipped) =
        enumerate(listing(&["a.mp4", "B.MP4", "c.txt", "d.mp4"]), Some(marker)).unwrap();
    assert_eq!(names(&left), vec!["d.mp4"]);
    assert_eq!(skipped, 2);
}

#[test]
fn marker_in_listing_resumes_after_it() {
    let marker = cand("b.MP4").path;
    let (all, _) = enumerate(listing(&["d.mp4", "b.MP4", "c.txt", "a.mp4"]), None).unwrap();
    assert_eq!(names(&all), vec!["a.mp4", "b.MP4", "d.mp4"]);
    let (left, skipped) =
        enumerate(listing(&["d.mp4", "b.MP4", "c.txt", "a.mp4"]), Some(marker)).unwrap();
    assert_eq!(names(&left), vec!["d.mp4"]);
    assert_eq!(skipped, 2);
}

#[test]
fn unknown_marker_keeps_everything() {
    let marker = "F:\\CARDV\\Movie\\b.mp4".to_string();
    let (left, skipped) =
        enumerate(listing(&["c.mp4", "a.mp4", "b.mp4"]), Some(marker)).unwrap();
    assert_eq!(names(&left), vec!["a.mp4", "b.mp4", "c.mp4"]);
    assert_eq!(skipped, 0);
}

#[test]
fn marker_at_the_end_leaves_nothing() {
    let marker = cand("c.mp4").path;
    let (left, skipped) =
        enumerate(listing(&["c.mp4", "a.mp4", "b.mp4"]), Some(marker)).unwrap();
    assert!(left.is_empty());
    assert_eq!(skipped, 3);
}

#[test]
fn empty_listing_gives_nothing() {
    let (left, skipped) = enumerate(Vec::new(), Some("x".to_string())).unwrap();
    assert!(left.is_empty());
    assert_eq!(skipped, 0);
}

#[test]
fn unreadable_entry_fails_the_listing() {
    let mut entries = listing(&["a.mp4", "b.mp4"]);
    entries.insert(1, None);
    assert!(matches!(enumerate(entries, None), Err(FilesystemError)));
}

#[test]
fn video_names_are_trimmed_and_lowercased() {
    assert!(is_video(&"x.MP4 ".to_string()));
    assert!(is_video(&" clip.Mp4".to_string()));
    assert!(!is_video(&"x.mp4.txt".to_string()));
    assert!(!is_video(&"mp".to_string()));
    assert!(ends_with_video_suffix("mp4"));
    assert!(!ends_with_video_suffix("MP4"));
}

#[test]
fn sorting_twice_is_sorting_once() {
    let v = vec![cand("b.mp4"), cand("c.mp4"), cand("a.mp4"), cand("ab.mp4")];
    let once = sort_by_path(v);
    assert_eq!(names(&once), vec!["a.mp4", "ab.mp4", "b.mp4", "c.mp4"]);
    let twice = sort_by_path(once);
    assert_eq!(names(&twice), vec!["a.mp4", "ab.mp4", "b.mp4", "c.mp4"]);
}

#[test]
fn resume_without_marker_skips_nothing() {
    let (left, skipped) = resume_after(vec![cand("a.mp4"), cand("b.mp4")], None);
    assert_eq!(names(&left), vec!["a.mp4", "b.mp4"]);
    assert_eq!(skipped, 0);
}

#[test]
fn path_order_ignores_ascii_case_then_breaks_ties_by_bytes() {
    assert!(bytes_lt(b"ab", b"b"));
    assert!(bytes_lt(b"a", b"ab"));
    assert!(!bytes_lt(b"ab", b"ab"));
    assert!(key_bytes_lt(b"a.mp4", b"B.MP4"));
    assert!(!key_bytes_lt(b"B.MP4", b"a.mp4"));
    assert!(key_bytes_lt(b"B", b"b"));
    assert!(!key_bytes_lt(b"b", b"B"));
    assert!(!key_bytes_lt(b"x", b"x"));
    assert!(key_bytes_lt(b"a", b"AB"));
    assert!(path_lt(&"a".to_string(), &"B".to_string()));
    assert!(!path_lt(&"B".to_string(), &"a".to_string()));
}

#[test]
fn listing_order_does_not_matter() {
    let marker = cand("b.mp4").path;
    let (one, s1) =
        enumerate(listing(&["c.mp4", "a.mp4", "b.mp4", "d.MP4"]), Some(marker.clone())).unwrap();
    let (two, s2) =
        enumerate(listing(&["d.MP4", "b.mp4", "c.mp4", "a.mp4"]), Some(marker)).unwrap();
    assert_eq!(names(&one), names(&two));
    assert_eq!(names(&one), vec!["c.mp4", "d.MP4"]);
    assert_eq!(s1, 2);
    assert_eq!(s2, 2);
}

#[test]
fn unicode_white_space_is_trimmed() {
    assert!(is_video(&"\u{3000}clip.mp4\u{2003}".to_string()));
    assert!(is_video(&"clip.MP4\u{a0}".to_string()));
    assert!(!is_video(&"clip.mp4x".to_string()));
}

#[test]
fn distinct_paths_come_out_strictly_increasing() {
    let (left, _) =
        enumerate(listing(&["d.mp4", "b.mp4", "a.mp4", "c.mp4"]), None).unwrap();
    for pair in left.windows(2) {
        assert!(path_lt(&pair[0].path, &pair[1].path));
    }
    assert_eq!(left.len(), 4);
}
