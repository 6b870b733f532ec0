use frep_core::error::Error;
use frep_core::run::{
    find_and_replace_text, ready_configuration, run_report, run_summary, FileFailure,
};
use frep_core::line_reader::LineEnding;
use frep_core::replace::{calculate_statistics, merge_statistics, ReplaceResult};
use frep_core::search::{SearchResult, SearchResultWithReplacement, SearchType};
use frep_core::text::{contains, first_line_bounds, replace, split, to_chars, to_decimal, trim};
use frep_core::utils::{add_overrides, is_regex_error, split_list};
use frep_core::validation::{
    compile_search, parse_search_text, parse_search_text_inner, with_flags, DirConfig,
    validate_search_configuration, ErrorCategory, SearchConfiguration, SimpleErrorHandler,
    ValidationErrorHandler, ValidationResult,
};

fn config<'a>(search_text: &'a str, replacement_text: &'a str) -> SearchConfiguration<'a> {
    SearchConfiguration {
        search_text,
        replacement_text,
        fixed_strings: false,
        advanced_regex: false,
        match_whole_word: false,
        match_case: true,
    }
}

fn chars(s: &str) -> Vec<char> {
    s.chars().collect()
}

#[test]
fn text_is_replaced_line_by_line() {
    assert_eq!(
        find_and_replace_text("one two\ntwo\nthree", config("two", "2")),
        Ok("one 2\n2\nthree".to_string())
    );
    assert_eq!(
        find_and_replace_text("", config("two", "2")),
        Ok(String::new())
    );
    assert_eq!(
        find_and_replace_text("^start", config(r"^\^", "")),
        Ok("start".to_string())
    );
}

#[test]
fn each_line_of_the_result_keeps_its_terminator() {
    assert_eq!(
        find_and_replace_text("a\r\nb\n", config("x", "y")),
        Ok("a\r\nb\n".to_string())
    );
    assert_eq!(
        find_and_replace_text("a\n\nb\r", config("b", "c")),
        Ok("a\n\nc\r".to_string())
    );
    assert_eq!(
        find_and_replace_text("one\r\ntwo\nthree\r\n\nlast", config("t", "T")),
        Ok("one\r\nTwo\nThree\r\n\nlasT".to_string())
    );
    assert_eq!(
        find_and_replace_text("x\n", config("x", "")),
        Ok("\n".to_string())
    );
}

#[test]
fn text_without_a_match_comes_back_as_it_is() {
    let mut literal = config("zzz", "y");
    literal.fixed_strings = true;
    for text in ["", "\n", "\r\n", "a\r\nb\n", "a\rb", "\n\n\r\n", "no terminator"] {
        assert_eq!(
            find_and_replace_text(text, literal.clone()),
            Ok(text.to_string())
        );
    }
}

#[test]
fn a_second_pass_over_text_changes_nothing() {
    let mut literal = config("world", "");
    literal.fixed_strings = true;
    let once = find_and_replace_text("a\nworld", literal.clone()).unwrap();
    assert_eq!(once, "a\n");
    assert_eq!(find_and_replace_text(&once, literal.clone()), Ok(once));

    let mut literal = config("w", "");
    literal.fixed_strings = true;
    let once = find_and_replace_text("a\nw", literal.clone()).unwrap();
    assert_eq!(once, "a\n");
    assert_eq!(find_and_replace_text(&once, literal), Ok(once));
}

#[test]
fn an_anchored_pattern_is_tried_on_each_line() {
    assert_eq!(
        find_and_replace_text("ab\nab\nba", config("^a", "x")),
        Ok("xb\nxb\nba".to_string())
    );
}

#[test]
fn a_refused_search_text_is_reported() {
    let result = find_and_replace_text("text", config("(unclosed", "x"));
    match result {
        Err(Error::Validation(text)) => {
            assert!(text.starts_with("Validation errors:\n\nFailed to parse search text:\n"));
            assert!(text.contains("unclosed"));
        }
        other => panic!("a validation failure expected, got {other:?}"),
    }
}

#[test]
fn a_ready_configuration_or_every_fault() {
    let dir = DirConfig {
        include_globs: Some("*.rs"),
        exclude_globs: None,
        include_hidden: true,
        directory: "src".to_string(),
    };
    let (search, dir) = ready_configuration(config("a+", "b"), Some(dir)).unwrap();
    assert_eq!(search.search, SearchType::Pattern("a+".to_string()));
    assert_eq!(search.replace, "b");
    let dir = dir.unwrap();
    assert_eq!(dir.overrides, vec!["*.rs"]);
    assert_eq!(dir.root_dir, "src");
    assert!(dir.include_hidden);

    let dir = DirConfig {
        include_globs: None,
        exclude_globs: Some("[bad"),
        include_hidden: false,
        directory: "src".to_string(),
    };
    match ready_configuration(config("a+", "b"), Some(dir)) {
        Err(Error::Validation(text)) => {
            assert!(text.starts_with("Validation errors:\n\nFailed to parse exclude globs:\n"));
        }
        other => panic!("a validation failure expected, got {other:?}"),
    }
}

#[test]
fn the_failure_lists_each_fault_under_its_title() {
    let dir = DirConfig {
        include_globs: Some("[bad"),
        exclude_globs: Some("fine, {worse"),
        include_hidden: false,
        directory: "src".to_string(),
    };
    let mut handler = SimpleErrorHandler::new();
    let faults = match validate_search_configuration(
        config("a(", "b"),
        Some(dir.clone()),
        &mut handler,
    ) {
        ValidationResult::ValidationErrors(faults) => faults,
        ValidationResult::Success(_) => panic!("three faults expected"),
    };
    assert_eq!(faults.len(), 3);
    let expected = format!(
        "Validation errors:\n\nFailed to parse search text:\n{}\n\nFailed to parse include globs:\n{}\n\nFailed to parse exclude globs:\n{}",
        faults[0].detail, faults[1].detail, faults[2].detail
    );
    assert_eq!(handler.errors_str(), Some(expected.clone()));
    assert_eq!(
        ready_configuration(config("a(", "b"), Some(dir)),
        Err(Error::Validation(expected))
    );
}

#[test]
fn the_handler_is_told_of_exactly_the_faults_found() {
    let dir = DirConfig {
        include_globs: Some("*.rs"),
        exclude_globs: Some("[bad"),
        include_hidden: false,
        directory: "src".to_string(),
    };
    let mut handler = SimpleErrorHandler::new();
    handler.push_error("Earlier", "kept");
    match validate_search_configuration(config("a+", "b"), Some(dir.clone()), &mut handler) {
        ValidationResult::ValidationErrors(faults) => {
            assert_eq!(faults.len(), 1);
            assert_eq!(
                handler.errors,
                vec![
                    "\nEarlier:\nkept".to_string(),
                    format!("\nFailed to parse exclude globs:\n{}", faults[0].detail)
                ]
            );
        }
        ValidationResult::Success(_) => panic!("a fault expected"),
    }

    let mut handler = SimpleErrorHandler::new();
    let mut fine = dir;
    fine.exclude_globs = None;
    let result = validate_search_configuration(config("a+", "b"), Some(fine), &mut handler);
    assert!(matches!(result, ValidationResult::Success(_)));
    assert!(handler.errors.is_empty());
    assert_eq!(handler.errors_str(), None);
}

#[test]
fn the_simple_handler_collects_in_order() {
    let mut handler = SimpleErrorHandler::default();
    assert_eq!(handler.errors_str(), None);
    handler.push_error("Title", "detail");
    handler.handle_include_files_error("short", "long");
    assert_eq!(
        handler.errors,
        vec!["\nTitle:\ndetail", "\nFailed to parse include globs:\nlong"]
    );
    assert_eq!(
        handler.errors_str(),
        Some("Validation errors:\n\nTitle:\ndetail\n\nFailed to parse include globs:\nlong".to_string())
    );
}

#[test]
fn the_summary_counts_files() {
    assert_eq!(run_summary(0, &vec![]), "Success: 0 files updated");
    assert_eq!(run_summary(1, &vec![]), "Success: 1 file updated");
    assert_eq!(run_summary(2, &vec![]), "Success: 2 files updated");
    assert_eq!(run_summary(1070, &vec![]), "Success: 1070 files updated");
}

#[test]
fn the_report_lists_files_that_failed_as_a_whole() {
    assert_eq!(run_report(2, &vec![], &vec![]), "Success: 2 files updated");
    let files = vec![
        FileFailure {
            path: "a/b.txt".to_string(),
            reason: "permission denied".to_string(),
        },
        FileFailure {
            path: "/".to_string(),
            reason: "no parent directory".to_string(),
        },
    ];
    assert_eq!(
        run_report(0, &vec![], &files),
        "Success: 0 files updated\nFiles not rewritten: 2\na/b.txt: permission denied\n/: no parent directory"
    );
    let errors = vec![failed(Some("c"), 4, "File changed since last search")];
    assert_eq!(
        run_report(1, &errors, &files[..1].to_vec()),
        "Success: 1 file updated\nErrors: 1\nc:4: File changed since last search\nFiles not rewritten: 1\na/b.txt: permission denied"
    );
}

fn failed(path: Option<&str>, line_number: usize, reason: &str) -> SearchResultWithReplacement {
    SearchResultWithReplacement {
        search_result: SearchResult {
            path: path.map(|p| p.to_string()),
            line_number,
            line: "line".to_string(),
            line_ending: LineEnding::Lf,
            included: true,
        },
        replacement: "other".to_string(),
        replace_result: Some(ReplaceResult::Error(reason.to_string())),
    }
}

#[test]
fn the_summary_lists_each_failure() {
    let errors = vec![
        failed(Some("src/a.rs"), 12, "File changed since last search"),
        failed(None, 3, "Failed to find search result in file"),
    ];
    assert_eq!(
        run_summary(1, &errors),
        "Success: 1 file updated\nErrors: 2\nsrc/a.rs:12: File changed since last search\n:3: Failed to find search result in file"
    );
}

#[test]
fn statistics_can_be_merged() {
    let mut first = failed(Some("a"), 1, "x");
    first.replace_result = Some(ReplaceResult::Success);
    let a = calculate_statistics(vec![first, failed(Some("a"), 2, "y")]);
    let mut never_met = failed(Some("b"), 9, "");
    never_met.replace_result = None;
    let b = calculate_statistics(vec![never_met]);
    let both = merge_statistics(a, b);
    assert_eq!(both.num_successes, 1);
    assert_eq!(both.errors.len(), 2);
    assert_eq!(both.errors[0].search_result.line_number, 2);
    assert_eq!(both.errors[1].search_result.line_number, 9);
    assert_eq!(
        run_summary(3, &both.errors),
        "Success: 3 files updated\nErrors: 2\na:2: y\nb:9: Failed to find search result in file"
    );
}

#[test]
fn numbers_are_written_in_decimal() {
    for n in [0, 7, 10, 99, 100, 12345, usize::MAX] {
        let digits: String = to_decimal(n).into_iter().collect();
        assert_eq!(digits, n.to_string());
    }
}

#[test]
fn flags_are_built_into_the_pattern() {
    assert_eq!(
        compile_search("a.b", true, false, false, true),
        Ok(SearchType::Fixed("a.b".to_string()))
    );
    assert_eq!(
        compile_search("a.b", true, false, true, true),
        Ok(SearchType::PatternAdvanced(
            r"(?<![a-zA-Z0-9_])a\.b(?![a-zA-Z0-9_])".to_string()
        ))
    );
    assert_eq!(
        compile_search("a.b", true, false, false, false),
        Ok(SearchType::PatternAdvanced(r"(?i)a\.b".to_string()))
    );
    assert_eq!(
        compile_search("a.b", false, false, true, false),
        Ok(SearchType::PatternAdvanced(
            r"(?i)(?<![a-zA-Z0-9_])a.b(?![a-zA-Z0-9_])".to_string()
        ))
    );
    assert_eq!(
        compile_search(r"(?<=a)b", false, true, false, true),
        Ok(SearchType::PatternAdvanced(r"(?<=a)b".to_string()))
    );
    assert_eq!(
        with_flags(SearchType::Pattern("x".to_string()), false, true),
        Ok(SearchType::Pattern("x".to_string()))
    );
}

#[test]
fn every_meta_character_of_a_literal_is_escaped() {
    let literal = r"\.+*?()|[]{}^$#&-~ plain_09%/!";
    let escaped = r"\\\.\+\*\?\(\)\|\[\]\{\}\^\$\#\&\-\~ plain_09%/!";
    assert_eq!(
        compile_search(literal, true, false, false, false),
        Ok(SearchType::PatternAdvanced(format!("(?i){escaped}")))
    );
}

#[test]
fn an_empty_search_text_compiles_and_stays_empty() {
    for (fixed, advanced) in [(true, false), (false, false), (false, true)] {
        for (whole_word, match_case) in [(false, true), (true, true), (false, false), (true, false)] {
            let pattern = compile_search("", fixed, advanced, whole_word, match_case).unwrap();
            assert!(pattern.is_empty());
        }
    }
}

#[test]
fn a_refused_pattern_is_a_regex_error() {
    let e = compile_search("(", false, false, false, true).unwrap_err();
    assert!(matches!(e, Error::Regex(_)));
    assert!(is_regex_error(&e));
    assert!(!e.message().is_empty());
    let e = compile_search("(", false, true, false, true).unwrap_err();
    assert!(matches!(e, Error::AdvancedRegex(_)));
    assert!(is_regex_error(&e));
    let e = parse_search_text_inner("(?<=a)b", false, false).unwrap_err();
    assert!(is_regex_error(&e));
    assert!(!is_regex_error(&Error::Glob("x".to_string())));
    assert!(!is_regex_error(&Error::Validation("x".to_string())));
    assert_eq!(Error::Glob("x".to_string()).message(), "x");
}

#[test]
fn parsing_reports_to_the_handler() {
    let mut handler = SimpleErrorHandler::new();
    assert_eq!(
        parse_search_text("a+", false, false, &mut handler),
        ValidationResult::Success(SearchType::Pattern("a+".to_string()))
    );
    assert!(handler.errors.is_empty());
    match parse_search_text("a(", false, false, &mut handler) {
        ValidationResult::ValidationErrors(errors) => {
            assert_eq!(errors.len(), 1);
            assert_eq!(errors[0].category, ErrorCategory::SearchText);
            assert_eq!(errors[0].error, "Couldn't parse regex");
            assert_eq!(
                handler.errors,
                vec![format!("\nFailed to parse search text:\n{}", errors[0].detail)]
            );
        }
        ValidationResult::Success(_) => panic!("a fault expected"),
    }
}

#[test]
fn a_list_is_cut_at_commas_and_trimmed() {
    assert_eq!(split_list(""), Vec::<String>::new());
    assert_eq!(split_list(" , ,"), Vec::<String>::new());
    assert_eq!(split_list("*.rs"), vec!["*.rs"]);
    assert_eq!(
        split_list(" *.rs,\tsrc/** ,, a b ,\u{a0}x\u{2003}"),
        vec!["*.rs", "src/**", "a b", "x"]
    );
}

#[test]
fn globs_are_added_up_to_the_first_refused() {
    let mut overrides = vec!["kept".to_string()];
    assert_eq!(add_overrides(&mut overrides, "*.rs, *.toml", ""), Ok(()));
    assert_eq!(overrides, vec!["kept", "*.rs", "*.toml"]);

    let result = add_overrides(&mut overrides, "a, [bad, b", "!");
    assert!(matches!(result, Err(Error::Glob(_))));
    assert_eq!(overrides, vec!["kept", "*.rs", "*.toml", "!a"]);

    assert_eq!(add_overrides(&mut overrides, " , ", "!"), Ok(()));
    assert_eq!(overrides.len(), 4);
}

#[test]
fn character_helpers() {
    assert_eq!(to_chars("añ🚀"), vec!['a', 'ñ', '🚀']);
    assert!(contains(&chars("hello"), &chars("ell")));
    assert!(contains(&chars("hello"), &chars("")));
    assert!(contains(&chars(""), &chars("")));
    assert!(!contains(&chars("hello"), &chars("elo")));
    assert!(!contains(&chars("he"), &chars("hello")));
    assert_eq!(replace(&chars("abcabc"), &chars("bc"), &chars("-")), chars("a-a-"));
    assert_eq!(replace(&chars("abc"), &chars(""), &chars("-")), chars("abc"));
    assert_eq!(trim(&chars(" \t a b \n")), chars("a b"));
    assert_eq!(trim(&chars(" \u{2028} ")), chars(""));
    assert_eq!(trim(&chars("\u{200b}")), chars("\u{200b}"));
    assert_eq!(
        split(&chars("a,,b,"), ','),
        vec![chars("a"), chars(""), chars("b"), chars("")]
    );
    assert_eq!(split(&chars(""), ','), vec![chars("")]);
}

#[test]
fn the_first_line_is_found_with_its_terminator() {
    let text = chars("ab\r\ncd\n\ref\r");
    assert_eq!(first_line_bounds(&text, 0), (2, 4));
    assert_eq!(first_line_bounds(&text, 1), (2, 4));
    assert_eq!(first_line_bounds(&text, 2), (2, 4));
    assert_eq!(first_line_bounds(&text, 3), (3, 4));
    assert_eq!(first_line_bounds(&text, 4), (6, 7));
    assert_eq!(first_line_bounds(&text, 7), (11, 11));
    assert_eq!(first_line_bounds(&chars("\n"), 0), (0, 1));
    assert_eq!(first_line_bounds(&chars("\r\n"), 0), (0, 2));
}

#[test]
fn whitespace_is_what_std_calls_whitespace() {
    for code in 0..=0x3100u32 {
        if let Some(c) = char::from_u32(code) {
            let trimmed_away = trim(&vec![c]).is_empty();
            assert_eq!(trimmed_away, c.is_whitespace(), "U+{code:04X}");
        }
    }
}
