use flatai::aggregate;
use flatai::aggregate_parallel;
use flatai::filter_entries;
use flatai::make_file_data;
use flatai::resolve;
use flatai::split_lines;
use flatai::Config;
use flatai::Entry;
use flatai::FileData;
use flatai::Project;

fn data(path: &str, secs: i64, lines: &[&str]) -> FileData {
    make_file_data(
        path.to_string(),
        secs,
        0,
        lines.iter().map(|l| l.to_string()).collect(),
    )
    .unwrap()
}

#[test]
fn epoch_timestamp_renders_exactly() {
    let fd = data("a.rs", 0, &[]);
    assert_eq!(fd.modified, "1970-01-01T00:00:00+00:00");
}

#[test]
fn out_of_range_timestamp_is_rejected() {
    assert!(make_file_data("a.rs".to_string(), i64::MAX, 0, vec![]).is_none());
}

#[test]
fn block_wraps_lines_between_tags() {
    let fd = data("src/lib.rs", 1700000000, &["line one", "line two"]);
    let out = aggregate(&vec![Some(fd)]);
    assert_eq!(out.len(), 4);
    assert_eq!(
        out[0],
        "<file name=\"src/lib.rs\" last_modified=\"2023-11-14T22:13:20+00:00\">"
    );
    assert_eq!(out[1], "line one");
    assert_eq!(out[2], "line two");
    assert_eq!(out[3], "</file>");
}

#[test]
fn skipped_read_contributes_no_block() {
    // one of the two matched files vanished before it could be read
    let a = data("a.rs", 0, &["alpha"]);
    let out = aggregate(&vec![Some(a), None]);
    assert_eq!(out.len(), 3);
    assert!(out[0].starts_with("<file name=\"a.rs\""));
    assert_eq!(out[1], "alpha");
    assert_eq!(out[2], "</file>");
}

#[test]
fn aggregate_keeps_input_order() {
    let a = data("b/first.rs", 0, &["1"]);
    let b = data("a/second.rs", 0, &["2"]);
    let out = aggregate(&vec![Some(a), Some(b)]);
    assert!(out[0].contains("b/first.rs"));
    assert!(out[3].contains("a/second.rs"));
}

#[test]
fn parallel_output_is_invariant_under_pool_size() {
    let inputs: Vec<Option<FileData>> = (0..64i64)
        .map(|i| {
            if i % 7 == 3 {
                None
            } else {
                Some(data(&format!("f{}.rs", i), i, &["x", "y"]))
            }
        })
        .collect();
    let sequential = aggregate(&inputs);
    let one = rayon::ThreadPoolBuilder::new().num_threads(1).build().unwrap();
    let many = rayon::ThreadPoolBuilder::new().num_threads(8).build().unwrap();
    let with_one = one.install(|| aggregate_parallel(&inputs));
    let with_many = many.install(|| aggregate_parallel(&inputs));
    assert_eq!(with_one, sequential);
    assert_eq!(with_many, sequential);
}

#[test]
fn filter_keeps_traversal_order_and_drops_directories() {
    let rule = flatai::SelectionRule {
        extensions: vec!["rs".to_string()],
        names: vec!["Cargo.toml".to_string()],
    };
    let entries = vec![
        Entry { path: "proj".to_string(), is_file: false },
        Entry { path: "proj/z.rs".to_string(), is_file: true },
        Entry { path: "proj/notes.txt".to_string(), is_file: true },
        Entry { path: "proj/Cargo.toml".to_string(), is_file: true },
        Entry { path: "proj/a.rs".to_string(), is_file: true },
    ];
    let paths = filter_entries(&entries, &rule);
    assert_eq!(
        paths,
        vec![
            "proj/z.rs".to_string(),
            "proj/Cargo.toml".to_string(),
            "proj/a.rs".to_string()
        ]
    );
}

#[test]
fn round_trip_two_files() {
    let config = Config {
        general_files: vec!["Cargo.toml".to_string()],
        projects: vec![Project {
            project_type: "rust".to_string(),
            file_types: vec!["rs".to_string()],
            file_names: vec![],
        }],
    };
    let t = "rust".to_string();
    let rule = resolve(&config, Some(&t)).ok().unwrap();
    let entries = vec![
        Entry { path: "proj/main.rs".to_string(), is_file: true },
        Entry { path: "proj/Cargo.toml".to_string(), is_file: true },
    ];
    let paths = filter_entries(&entries, &rule);
    assert_eq!(
        paths,
        vec!["proj/main.rs".to_string(), "proj/Cargo.toml".to_string()]
    );
    let inputs: Vec<Option<FileData>> = vec![
        make_file_data(paths[0].clone(), 1700000000, 0, split_lines("fn main() {}")),
        make_file_data(paths[1].clone(), 1700000000, 0, split_lines("[package]")),
    ];
    let out = aggregate_parallel(&inputs);
    assert_eq!(out.len(), 6);
    assert!(out[0].starts_with("<file name=\"proj/main.rs\" last_modified=\""));
    assert!(out[0].ends_with("\">"));
    assert_eq!(out[1], "fn main() {}");
    assert_eq!(out[2], "</file>");
    assert!(out[3].starts_with("<file name=\"proj/Cargo.toml\" last_modified=\""));
    assert_eq!(out[4], "[package]");
    assert_eq!(out[5], "</file>");
    // the open tag carries a valid RFC 3339 timestamp
    let tag = &out[0];
    let ts_start = tag.find("last_modified=\"").unwrap() + "last_modified=\"".len();
    let ts = &tag[ts_start..tag.len() - 2];
    assert!(chrono::DateTime::parse_from_rfc3339(ts).is_ok());
}
