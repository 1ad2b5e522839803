use week_report::date::Date;
use week_report::date::format_date;
use week_report::errors::ExtensionError;
use week_report::errors::ValidationError;
use week_report::lang::LanguageTag;
use week_report::lang::resolve_language_tag;
use week_report::num::u64_to_dec;
use week_report::paths::AssignmentFiles;
use week_report::paths::check_path;
use week_report::paths::file_name_of;

#[test]
fn split_round_trip_single() {
    let g = AssignmentFiles::parse("a.c").unwrap();
    assert_eq!(g.paths.join(" "), "a.c");
}

#[test]
fn split_round_trip_many() {
    let raw = "src/a.c src/b.cpp /abs/c.h";
    let g = AssignmentFiles::parse(raw).unwrap();
    assert_eq!(g.paths.len(), 3);
    assert_eq!(g.paths[0], "src/a.c");
    assert_eq!(g.paths[1], "src/b.cpp");
    assert_eq!(g.paths[2], "/abs/c.h");
    assert_eq!(g.paths.join(" "), raw);
}

#[test]
fn rejects_lone_empty_string() {
    let e = AssignmentFiles::parse("").unwrap_err();
    assert!(matches!(e, ValidationError::EmptyPathList));
    assert_eq!(e.message(), "No file paths have been supplied.");
}

#[test]
fn rejects_all_space_input() {
    let e = AssignmentFiles::parse("   ").unwrap_err();
    assert!(matches!(e, ValidationError::EmptyPathList));
}

#[test]
fn rejects_colon_token() {
    let e = AssignmentFiles::parse("a:b").unwrap_err();
    match &e {
        ValidationError::InvalidPath { path } => assert_eq!(path, "a:b"),
        _ => panic!("expected the token to be reported"),
    }
    assert_eq!(e.message(), "a:b is not a valid path.");
}

#[test]
fn rejects_null_token() {
    assert!(AssignmentFiles::parse("a\0b").is_err());
}

#[test]
fn drops_empty_tokens_from_extra_spaces() {
    let g = AssignmentFiles::parse(" a.c  b.c ").unwrap();
    assert_eq!(g.paths, vec!["a.c".to_string(), "b.c".to_string()]);
    let g = AssignmentFiles::parse("a.c  b.c").unwrap();
    assert_eq!(g.paths.len(), 2);
}

#[test]
fn rejoin_normalizes_extra_spaces() {
    let g = AssignmentFiles::parse(" a.c  b.c").unwrap();
    assert_eq!(g.paths.join(" "), "a.c b.c");
}

#[test]
fn rejects_trailing_separator() {
    assert!(AssignmentFiles::parse("a/b/").is_err());
    assert!(!check_path("a/b/"));
}

#[test]
fn rejects_empty_segment() {
    assert!(AssignmentFiles::parse("a//b").is_err());
}

#[test]
fn accepts_leading_separator() {
    let g = AssignmentFiles::parse("/a/b.c").unwrap();
    assert_eq!(g.paths, vec!["/a/b.c".to_string()]);
}

#[test]
fn file_name_of_nested_path() {
    assert_eq!(file_name_of("/a/b/c.cpp"), "c.cpp");
}

#[test]
fn file_name_of_bare_name() {
    assert_eq!(file_name_of("c.cpp"), "c.cpp");
}

#[test]
fn resolves_c_extension() {
    assert_eq!(resolve_language_tag("main.c", "/x/main.c").unwrap(), LanguageTag::C);
    assert_eq!(LanguageTag::C.as_str(), "c");
}

#[test]
fn resolves_header_and_cpp_extensions() {
    assert_eq!(resolve_language_tag("a.h", "a.h").unwrap(), LanguageTag::C);
    assert_eq!(resolve_language_tag("a.cpp", "a.cpp").unwrap(), LanguageTag::Cpp);
    assert_eq!(resolve_language_tag("a.hpp", "a.hpp").unwrap(), LanguageTag::Cpp);
    assert_eq!(LanguageTag::Cpp.as_str(), "cpp");
}

#[test]
fn unsupported_extension_reports_raw_text() {
    match resolve_language_tag("x.py", "/x.py") {
        Err(ExtensionError::Unsupported { extension }) => assert_eq!(extension, ".py"),
        other => panic!("expected unsupported extension, got {:?}", other.is_ok()),
    }
}

#[test]
fn missing_extension_reports_name_and_path() {
    match resolve_language_tag("noext", "/noext") {
        Err(ExtensionError::Missing { file, path }) => {
            assert_eq!(file, "noext");
            assert_eq!(path, "/noext");
        },
        other => panic!("expected missing extension, got {:?}", other.is_ok()),
    }
}

#[test]
fn extension_scan_is_greedy_and_capped_at_three() {
    match resolve_language_tag("f.html", "f.html") {
        Err(ExtensionError::Unsupported { extension }) => assert_eq!(extension, ".htm"),
        _ => panic!("expected unsupported extension"),
    }
    match resolve_language_tag("a.b.c", "a.b.c") {
        Err(ExtensionError::Unsupported { extension }) => assert_eq!(extension, ".b.c"),
        _ => panic!("expected unsupported extension"),
    }
}

#[test]
fn extension_scan_takes_last_occurrence() {
    match resolve_language_tag("archive.tar.gz", "archive.tar.gz") {
        Err(ExtensionError::Unsupported { extension }) => assert_eq!(extension, ".gz"),
        _ => panic!("expected unsupported extension"),
    }
    assert_eq!(resolve_language_tag("a.bcd.c", "a.bcd.c").unwrap(), LanguageTag::C);
}

#[test]
fn dots_count_as_extension_characters() {
    match resolve_language_tag("old.py.c", "old.py.c") {
        Err(ExtensionError::Unsupported { extension }) => assert_eq!(extension, ".py."),
        _ => panic!("expected unsupported extension"),
    }
}

#[test]
fn extension_error_messages() {
    let e = resolve_language_tag("x.py", "/x.py").unwrap_err();
    assert_eq!(e.message(), "Unsupported extension .py.");
    let e = resolve_language_tag("noext", "/noext").unwrap_err();
    assert_eq!(e.message(), "No extension was found for file with name 'noext' on path '/noext'.");
}

#[test]
fn decimal_rendering() {
    assert_eq!(u64_to_dec(0), "0");
    assert_eq!(u64_to_dec(7), "7");
    assert_eq!(u64_to_dec(10), "10");
    assert_eq!(u64_to_dec(255), "255");
    assert_eq!(u64_to_dec(1203), "1203");
}

#[test]
fn date_formatting_pads_fields() {
    let d = Date::new(5, 1, 2024).unwrap();
    assert_eq!(format_date(&d), "05/01/2024");
    let d = Date::new(31, 12, 987).unwrap();
    assert_eq!(format_date(&d), "31/12/0987");
}

#[test]
fn date_ranges_are_enforced() {
    assert!(Date::new(0, 1, 2024).is_none());
    assert!(Date::new(32, 1, 2024).is_none());
    assert!(Date::new(1, 13, 2024).is_none());
    assert!(Date::new(1, 0, 2024).is_none());
    assert!(Date::new(1, 1, 10000).is_none());
    assert!(Date::new(29, 2, 2024).is_some());
}

#[test]
fn current_date_is_well_formed() {
    let d = week_report::date::current_date().expect("the clock's year should have four digits");
    assert!(1 <= d.day && d.day <= 31);
    assert!(1 <= d.month && d.month <= 12);
    assert!(d.year <= 9999);
}
