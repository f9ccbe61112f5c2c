use syncweb_core::search::{
    extension_of, file_name, filter_entries, glob_match_case, path_depth, FileEntry, FileType,
    FindEngine, FindQuery, MatchKind,
};

fn entry(path: &str, relative: &str, size: u64, modified: i64) -> FileEntry {
    FileEntry {
        path: path.to_owned(),
        relative_path: relative.to_owned(),
        size,
        modified,
        hash: *blake3::hash(b"").as_bytes(),
        file_type: FileType::File,
    }
}

#[test]
fn test_parse_size_constraints() {
    let empty: Vec<String> = vec![];
    let (min1, max1) = FindQuery::parse_size_constraints(&empty).unwrap();
    assert_eq!(min1, None);
    assert_eq!(max1, None);

    let (min2, max2) = FindQuery::parse_size_constraints(&["5GB".to_string()]).unwrap();
    assert_eq!(min2, Some(5_000_000_000));
    assert_eq!(max2, Some(5_000_000_000));

    let (min3, max3) = FindQuery::parse_size_constraints(&["-5GB".to_string()]).unwrap();
    assert_eq!(min3, None);
    assert_eq!(max3, Some(4_999_999_999));
}

#[test]
fn test_filter_entries() {
    let entries = vec![
        entry("/test/file1.txt", "file1.txt", 100, 0),
        entry("/test/.hidden", ".hidden", 50, 0),
        entry("/test/subdir/file2.txt", "subdir/file2.txt", 200, 0),
    ];

    let query1 = FindQuery { hidden: false, ..FindQuery::default() };
    assert_eq!(filter_entries(&entries, &query1).len(), 2);

    let query2 = FindQuery { hidden: true, ..FindQuery::default() };
    assert_eq!(filter_entries(&entries, &query2).len(), 3);

    let query3 = FindQuery { max_depth: Some(1), hidden: true, ..FindQuery::default() };
    assert_eq!(filter_entries(&entries, &query3).len(), 2);

    let query4 = FindQuery { min_size: Some(150), hidden: true, ..FindQuery::default() };
    let filtered4 = filter_entries(&entries, &query4);
    assert_eq!(filtered4.len(), 1);
    assert_eq!(filtered4.first().unwrap().path, "/test/subdir/file2.txt");
}

#[test]
fn size_constraints_keep_the_tightest_bounds() {
    let list = vec!["+1kb".to_owned(), "+5kb".to_owned(), "-1mb".to_owned(), "-10kb".to_owned()];
    assert_eq!(FindQuery::parse_size_constraints(&list).unwrap(), (Some(5_001), Some(9_999)));
    assert!(FindQuery::parse_size_constraints(&["huge".to_owned()]).is_err());
}

#[test]
fn time_constraints_from_a_fixed_now() {
    let now = 1_000_000;
    let (after, before) = FindQuery::parse_time_constraints_at(
        &["1 day".to_owned(), "2 days".to_owned()],
        &["1 week".to_owned()],
        &["-1h".to_owned(), "+1h".to_owned()],
        now,
    )
    .unwrap();
    assert_eq!(after, Some(now - 3_600));
    assert_eq!(before, Some(now - 604_800));
    assert!(FindQuery::parse_time_constraints_at(&["soon".to_owned()], &[], &[], now).is_err());
}

#[test]
fn path_components_follow_unix_rules() {
    assert_eq!(path_depth("file1.txt"), 1);
    assert_eq!(path_depth("subdir/file2.txt"), 2);
    assert_eq!(path_depth("a/./b/"), 2);
    assert_eq!(path_depth("./a"), 2);
    assert_eq!(path_depth("/"), 1);
    assert_eq!(path_depth("/a//b"), 3);
    assert_eq!(path_depth(""), 0);
    for path in ["a/b/c", "./x/../y", "//a", ".", "a/.", "../a", "a//b/./c/"] {
        assert_eq!(path_depth(path), std::path::Path::new(path).components().count(), "{path}");
    }
}

#[test]
fn file_names_and_extensions_follow_std() {
    for path in ["/test/.hidden", "a/b.txt", "a/b/", "a/..", "/", ".", "x.tar.gz", "a."] {
        let expected = std::path::Path::new(path).file_name().map(|n| n.to_str().unwrap().to_owned());
        assert_eq!(file_name(path), expected, "{path}");
        let expected_ext = std::path::Path::new(path).extension().map(|n| n.to_str().unwrap().to_owned());
        let ext = file_name(path)
            .and_then(|n| extension_of(&n.chars().collect::<Vec<_>>()))
            .map(|v| v.into_iter().collect::<String>());
        assert_eq!(ext, expected_ext, "{path}");
    }
}

#[test]
fn patterns_and_extensions_select_entries() {
    let entries = vec![
        entry("/m/Movie.MKV", "Movie.MKV", 10, 5),
        entry("/m/notes.txt", "notes.txt", 10, 50),
        entry("/m/sub/clip.mp4", "sub/clip.mp4", 10, 500),
    ];
    let glob = FindQuery::glob("*.mkv");
    assert_eq!(filter_entries(&entries, &glob).len(), 1);
    let exact = FindQuery::exact("NOTES");
    assert_eq!(filter_entries(&entries, &exact).len(), 1);
    let regex = FindQuery::regex("^clip\\.");
    assert_eq!(filter_entries(&entries, &regex).len(), 1);
    let bad_regex = FindQuery::regex("(");
    assert!(filter_entries(&entries, &bad_regex).is_empty());
    let exts = FindQuery::default().extensions(vec![".MP4".to_owned(), "txt".to_owned()]);
    assert_eq!(exts.extensions, vec!["mp4".to_owned(), "txt".to_owned()]);
    assert_eq!(filter_entries(&entries, &exts).len(), 2);
    let one = FindQuery::default().extension("..txt");
    assert_eq!(one.extension.as_deref(), Some("txt"));
    assert_eq!(filter_entries(&entries, &one).len(), 1);
    let recent = FindQuery::default().modified_after(10).modified_before(100);
    assert_eq!(filter_entries(&entries, &recent).len(), 1);
    let typed = FindQuery::default().file_type(FileType::Directory);
    assert!(filter_entries(&entries, &typed).is_empty());
    let shallow = FindQuery::default().depth(1).size(Some(10), Some(10));
    assert_eq!(filter_entries(&entries, &shallow).len(), 2);
    let full = FindQuery { full_path: true, ..FindQuery::glob("sub/*") };
    assert_eq!(filter_entries(&entries, &full).len(), 1);
    let blocked = FindQuery { downloadable: true, sync_mode: Some("sendonly".to_owned()), ..FindQuery::default() };
    assert!(filter_entries(&entries, &blocked).is_empty());
    assert_eq!(FindQuery::default().kind, MatchKind::Glob);
}

#[test]
fn glob_case_folding() {
    assert!(glob_match_case("*.MKV", "movie.mkv", true));
    assert!(!glob_match_case("*.MKV", "movie.mkv", false));
}

#[test]
fn engine_builders_and_filter() {
    let engine = FindEngine::new("/data").with_ignore_patterns(vec!["*.tmp".to_owned()]).with_threads(4);
    assert_eq!(engine.root, "/data");
    assert_eq!(engine.ignore_patterns, vec!["*.tmp".to_owned()]);
    assert_eq!(engine.threads, 4);
    let entries = vec![entry("/data/a.tmp", "a.tmp", 1, 0)];
    assert_eq!(engine.filter(&entries, &FindQuery::glob("*.tmp")).len(), 1);
}

#[test]
fn plus_modified_times_mean_older_than() {
    let now = 1_000_000;
    let (after, before) = FindQuery::parse_time_constraints_at(&[], &[], &["+3 days".to_owned()], now).unwrap();
    assert_eq!(after, None);
    assert_eq!(before, Some(now - 259_200));
    let (after, before) = FindQuery::parse_time_constraints_at(&[], &[], &["-3 days".to_owned()], now).unwrap();
    assert_eq!(after, Some(now - 259_200));
    assert_eq!(before, None);
}
