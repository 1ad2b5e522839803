use week_report::date::Date;
use week_report::errors::ExtensionError;
use week_report::errors::ValidationError;
use week_report::lang::LanguageTag;
use week_report::paths::AssignmentFiles;
use week_report::report::Chunk;
use week_report::report::ReportConfig;
use week_report::report::render_fence_close;
use week_report::report::render_fence_open;
use week_report::report::render_file_heading;
use week_report::report::render_group_heading;
use week_report::report::render_header;
use week_report::report::render_report;

fn config(tutorial: bool, raw_groups: &[&str], output_file: Option<&str>) -> ReportConfig {
    let groups: Vec<AssignmentFiles> = raw_groups
        .iter()
        .map(|raw| AssignmentFiles::parse(raw).unwrap())
        .collect();
    ReportConfig::new(
        "A".to_string(),
        "B".to_string(),
        1,
        3,
        tutorial,
        groups,
        output_file.map(|s| s.to_string()),
    )
    .unwrap()
}

fn document(cfg: &ReportConfig, date: &Date, contents: &Vec<Vec<Vec<u8>>>) -> String {
    let chunks = render_report(cfg, date, contents).unwrap();
    let mut bytes: Vec<u8> = Vec::new();
    for chunk in chunks {
        match chunk {
            Chunk::Text(s) => bytes.extend(s.as_bytes()),
            Chunk::Raw(b) => bytes.extend(b),
        }
    }
    String::from_utf8(bytes).unwrap()
}

#[test]
fn single_file_report() {
    let cfg = config(false, &["foo.c"], None);
    assert_eq!(cfg.output_file, "week3.md");
    let date = Date::new(2, 6, 2024).unwrap();
    let contents = vec![vec![b"int x;".to_vec()]];
    let text = document(&cfg, &date, &contents);
    assert!(text.starts_with("# Assignment week 3"));
    assert!(text.contains("```c\nint x;```  \n"));
    assert_eq!(
        text,
        "# Assignment week 3  \n  \nName: A  \nStudent number: 1  \nClass: B  \nDate: 02/06/2024  \n  \n## Assignment 1  \n  \n### File: foo.c  \n  \n```c\nint x;```  \n"
    );
}

#[test]
fn two_groups_numbered_in_order() {
    let cfg = config(false, &["a.c", "b.cpp"], Some("out.md"));
    assert_eq!(cfg.output_file, "out.md");
    let date = Date::new(1, 1, 2024).unwrap();
    let contents = vec![vec![b"1".to_vec()], vec![b"2".to_vec()]];
    let text = document(&cfg, &date, &contents);
    let first = text.find("## Assignment 1  \n").unwrap();
    let second = text.find("## Assignment 2  \n").unwrap();
    assert!(first < second);
    assert!(!text.contains("## Assignment 3"));
    assert!(text.contains("```c\n1```  \n"));
    assert!(text.contains("```cpp\n2```  \n"));
}

#[test]
fn tutorial_wording() {
    let cfg = config(true, &["t.h"], None);
    let date = Date::new(1, 1, 2024).unwrap();
    let contents = vec![vec![Vec::new()]];
    let text = document(&cfg, &date, &contents);
    assert!(text.starts_with("# Tutorial week 3"));
    assert!(text.contains("## Tutorial 1  \n"));
    assert!(!text.contains("Assignment"));
}

#[test]
fn group_with_several_files_in_order() {
    let cfg = config(false, &["dir/a.c b.cpp"], None);
    let date = Date::new(1, 1, 2024).unwrap();
    let contents = vec![vec![b"aa".to_vec(), b"bb".to_vec()]];
    let text = document(&cfg, &date, &contents);
    let a = text.find("### File: a.c  \n").unwrap();
    let b = text.find("### File: b.cpp  \n").unwrap();
    assert!(a < b);
    assert!(text.contains("```c\naa```  \n"));
    assert!(text.contains("```cpp\nbb```  \n"));
}

#[test]
fn file_bytes_are_copied_verbatim() {
    let cfg = config(false, &["raw.c"], None);
    let date = Date::new(1, 1, 2024).unwrap();
    let body = b"line1\nline2\n\ttabbed\n".to_vec();
    let contents = vec![vec![body.clone()]];
    let chunks = render_report(&cfg, &date, &contents).unwrap();
    let raw: Vec<&Vec<u8>> = chunks
        .iter()
        .filter_map(|c| match c {
            Chunk::Raw(b) => Some(b),
            _ => None,
        })
        .collect();
    assert_eq!(raw.len(), 1);
    assert_eq!(raw[0], &body);
}

#[test]
fn unsupported_file_fails_whole_report() {
    let cfg = config(false, &["a.c script.py"], None);
    let date = Date::new(1, 1, 2024).unwrap();
    let contents = vec![vec![b"x".to_vec(), b"y".to_vec()]];
    match render_report(&cfg, &date, &contents) {
        Err(ExtensionError::Unsupported { extension }) => assert_eq!(extension, ".py"),
        _ => panic!("expected the unsupported extension to abort the run"),
    }
}

#[test]
fn extensionless_file_fails_whole_report() {
    let cfg = config(false, &["/some/noext"], None);
    let date = Date::new(1, 1, 2024).unwrap();
    let contents = vec![vec![b"x".to_vec()]];
    match render_report(&cfg, &date, &contents) {
        Err(ExtensionError::Missing { file, path }) => {
            assert_eq!(file, "noext");
            assert_eq!(path, "/some/noext");
        },
        _ => panic!("expected the missing extension to abort the run"),
    }
}

#[test]
fn empty_group_fails_validation() {
    let empty = AssignmentFiles { paths: Vec::new() };
    let r = ReportConfig::new(
        "A".to_string(),
        "B".to_string(),
        1,
        3,
        false,
        vec![empty],
        None,
    );
    assert!(matches!(r.unwrap_err(), ValidationError::EmptyPathList));
}

#[test]
fn no_groups_fails_validation() {
    let r = ReportConfig::new(
        "A".to_string(),
        "B".to_string(),
        1,
        3,
        false,
        Vec::new(),
        None,
    );
    assert!(matches!(r.unwrap_err(), ValidationError::EmptyPathList));
}

#[test]
fn invalid_path_in_group_fails_validation() {
    let bad = AssignmentFiles { paths: vec!["a:b".to_string()] };
    let r = ReportConfig::new(
        "A".to_string(),
        "B".to_string(),
        1,
        3,
        false,
        vec![bad],
        None,
    );
    match r.unwrap_err() {
        ValidationError::InvalidPath { path } => assert_eq!(path, "a:b"),
        _ => panic!("expected the invalid path to be reported"),
    }
}

#[test]
fn header_pieces_render_exactly() {
    let cfg = config(true, &["t.c"], Some("x.md"));
    let date = Date::new(9, 11, 2023).unwrap();
    assert_eq!(
        render_header(&cfg, &date),
        "# Tutorial week 3  \n  \nName: A  \nStudent number: 1  \nClass: B  \nDate: 09/11/2023  \n  \n"
    );
    assert_eq!(render_group_heading(false, 2), "## Assignment 2  \n  \n");
    assert_eq!(render_file_heading("m.c"), "### File: m.c  \n  \n");
    assert_eq!(render_fence_open(LanguageTag::Cpp), "```cpp\n");
    assert_eq!(render_fence_close(), "```  \n");
}

#[test]
fn week_number_defaults_output_file() {
    let groups = vec![AssignmentFiles::parse("a.c").unwrap()];
    let cfg = ReportConfig::new(
        "N".to_string(),
        "C".to_string(),
        42,
        255,
        false,
        groups,
        None,
    )
    .unwrap();
    assert_eq!(cfg.output_file, "week255.md");
}
