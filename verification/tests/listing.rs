use rwinscp::backend::ftp::{parse_list_line, parse_listing};
use rwinscp::backend::s3::{as_key, as_prefix, object_entry, prefix_entry, tree_relative};
use rwinscp::backend::ssh_sftp_scp::sftp_entry;

#[test]
fn parses_a_unix_list_line() {
    let entry = parse_list_line("-rw-r--r-- 1 user group 4096 Jan  1 00:00 readme.txt")
        .expect("should parse");
    assert_eq!(entry.name, "readme.txt");
    assert_eq!(entry.size, 4096);
    assert!(!entry.is_dir);
}

#[test]
fn directories_are_recognised() {
    let entry =
        parse_list_line("drwxr-xr-x 2 user group 4096 Jan  1 00:00 docs").expect("should parse");
    assert!(entry.is_dir);
}

#[test]
fn names_with_spaces_survive() {
    let entry = parse_list_line("-rw-r--r-- 1 user group 12 Jan  1 00:00 my holiday photos.zip")
        .expect("should parse");
    assert_eq!(entry.name, "my holiday photos.zip");
}

#[test]
fn unparseable_lines_are_skipped_not_guessed() {
    assert!(parse_list_line("total 42").is_none());
    assert!(parse_list_line("").is_none());
    assert!(parse_list_line("garbage").is_none());
}

#[test]
fn dot_entries_are_dropped() {
    assert!(parse_list_line("drwxr-xr-x 2 u g 4096 Jan  1 00:00 .").is_none());
    assert!(parse_list_line("drwxr-xr-x 2 u g 4096 Jan  1 00:00 ..").is_none());
}

#[test]
fn list_line_keeps_the_date_fields() {
    let entry = parse_list_line("-rw-r--r-- 1 user group 77 Mar 14  2021 archive.tar")
        .expect("should parse");
    assert_eq!(entry.modified.as_deref(), Some("Mar 14 2021"));
    assert_eq!(entry.name, "archive.tar");
    assert_eq!(entry.size, 77);
}

#[test]
fn a_size_that_is_not_a_number_reads_as_zero() {
    let entry = parse_list_line("-rw-r--r-- 1 user group big Jan  1 00:00 x").expect("parses");
    assert_eq!(entry.size, 0);
}

#[test]
fn the_name_is_what_follows_the_eighth_field() {
    // The year also appears as the size; the name still starts after the
    // eighth field.
    let entry = parse_list_line("-rw-r--r-- 1 user group 2021 Jan  1 2021 report.pdf")
        .expect("parses");
    assert_eq!(entry.name, "report.pdf");
    assert_eq!(entry.size, 2021);
    assert!(!entry.is_dir);
    assert_eq!(entry.modified.as_deref(), Some("Jan 1 2021"));
    let entry = parse_list_line("-rw-r--r-- 1 00:00 group 5 Jan 1 00:00 n").expect("parses");
    assert_eq!(entry.name, "n");
}

#[test]
fn a_listing_keeps_only_the_entries() {
    let lines = vec![
        "total 8".to_owned(),
        "drwxr-xr-x 2 u g 4096 Jan  1 00:00 .".to_owned(),
        "drwxr-xr-x 2 u g 4096 Jan  1 00:00 src".to_owned(),
        "-rw-r--r-- 1 u g 10 Jan  1 00:00 a b".to_owned(),
    ];
    let entries = parse_listing(&lines);
    assert_eq!(entries.len(), 2);
    assert_eq!(entries[0].name, "src");
    assert!(entries[0].is_dir);
    assert_eq!(entries[1].name, "a b");
    assert_eq!(entries[1].size, 10);
}

#[test]
fn object_keys_and_prefixes() {
    assert_eq!(as_key("/photos/cat.jpg"), "photos/cat.jpg");
    assert_eq!(as_key("//x"), "x");
    assert_eq!(as_prefix("/photos/"), "photos/");
    assert_eq!(as_prefix("photos"), "photos/");
    assert_eq!(as_prefix("/"), "");
    assert_eq!(as_prefix(""), "");
}

#[test]
fn s3_listing_names() {
    let dir = prefix_entry("photos/2024/").expect("a directory");
    assert_eq!(dir.name, "2024");
    assert!(dir.is_dir);
    assert!(prefix_entry("/").is_none());
    let file = object_entry("photos/cat.jpg", Some(12), None).expect("a file");
    assert_eq!(file.name, "cat.jpg");
    assert_eq!(file.size, 12);
    assert!(!file.is_dir);
    assert!(object_entry("photos/", Some(0), None).is_none());
    let negative = object_entry("a", Some(-5), Some(0)).expect("a file");
    assert_eq!(negative.size, 0);
    assert_eq!(negative.modified.as_deref(), Some("1970-01-01 00:00"));
}

#[test]
fn downloaded_trees_keep_relative_paths() {
    assert_eq!(tree_relative("docs/a/b.txt", "docs/").as_deref(), Some("a/b.txt"));
    assert_eq!(tree_relative("docs/a/", "docs/"), None);
    assert_eq!(tree_relative("other/x", "docs/").as_deref(), Some("other/x"));
}

#[test]
fn sftp_records_become_entries() {
    assert!(sftp_entry(Some(".".to_owned()), true, None, None).is_none());
    assert!(sftp_entry(Some("..".to_owned()), true, None, None).is_none());
    assert!(sftp_entry(None, false, None, None).is_none());
    let e = sftp_entry(Some("f.txt".to_owned()), false, Some(3), Some(86_400 + 3_660))
        .expect("an entry");
    assert_eq!(e.name, "f.txt");
    assert_eq!(e.size, 3);
    assert_eq!(e.modified.as_deref(), Some("1970-01-02 01:01"));
    let e = sftp_entry(Some("d".to_owned()), true, None, None).expect("an entry");
    assert_eq!(e.size, 0);
    assert!(e.is_dir);
    assert!(e.modified.is_none());
}
