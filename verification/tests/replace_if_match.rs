use frep_core::replace::replacement_if_match;
use frep_core::validation::{
    validate_search_configuration, ParsedSearchConfig, SearchConfiguration, SimpleErrorHandler,
    ValidationResult,
};

fn must_parse_search_config(search_config: SearchConfiguration<'_>) -> ParsedSearchConfig {
    let mut error_handler = SimpleErrorHandler::new();
    match validate_search_configuration(search_config, None, &mut error_handler) {
        ValidationResult::Success((search_config, _dir_config)) => search_config,
        ValidationResult::ValidationErrors(_) => {
            panic!("{}", error_handler.errors_str().unwrap());
        }
    }
}

#[test]
fn replace_test_basic_replacement() {
    {
        let search_config = SearchConfiguration {
            search_text: "world",
            fixed_strings: true,
            match_whole_word: true,
            match_case: true,
            replacement_text: "earth",
            advanced_regex: false,
        };
        let parsed = must_parse_search_config(search_config);

        assert_eq!(
            replacement_if_match("hello world", &parsed.search, &parsed.replace),
            Some("hello earth".to_string())
        );
    }
    {
        let search_config = SearchConfiguration {
            search_text: "world",
            fixed_strings: true,
            match_whole_word: true,
            match_case: false,
            replacement_text: "earth",
            advanced_regex: false,
        };
        let parsed = must_parse_search_config(search_config);

        assert_eq!(
            replacement_if_match("hello world", &parsed.search, &parsed.replace),
            Some("hello earth".to_string())
        );
    }
    {
        let search_config = SearchConfiguration {
            search_text: "world",
            fixed_strings: true,
            match_whole_word: false,
            match_case: true,
            replacement_text: "earth",
            advanced_regex: false,
        };
        let parsed = must_parse_search_config(search_config);

        assert_eq!(
            replacement_if_match("hello world", &parsed.search, &parsed.replace),
            Some("hello earth".to_string())
        );
    }
    {
        let search_config = SearchConfiguration {
            search_text: "world",
            fixed_strings: true,
            match_whole_word: false,
            match_case: false,
            replacement_text: "earth",
            advanced_regex: false,
        };
        let parsed = must_parse_search_config(search_config);

        assert_eq!(
            replacement_if_match("hello world", &parsed.search, &parsed.replace),
            Some("hello earth".to_string())
        );
    }
}

#[test]
fn replace_test_case_sensitivity() {
    {
        let search_config = SearchConfiguration {
            search_text: "world",
            fixed_strings: true,
            match_whole_word: true,
            match_case: true,
            replacement_text: "earth",
            advanced_regex: false,
        };
        let parsed = must_parse_search_config(search_config);

        assert_eq!(
            replacement_if_match("hello WORLD", &parsed.search, &parsed.replace),
            None
        );
    }
    {
        let search_config = SearchConfiguration {
            search_text: "world",
            fixed_strings: true,
            match_whole_word: false,
            match_case: true,
            replacement_text: "earth",
            advanced_regex: false,
        };
        let parsed = must_parse_search_config(search_config);

        assert_eq!(
            replacement_if_match("hello WORLD", &parsed.search, &parsed.replace),
            None
        );
    }
    {
        let re_str = r"world";
        let search_config = SearchConfiguration {
            search_text: re_str,
            fixed_strings: false,
            match_whole_word: true,
            match_case: true,
            replacement_text: "earth",
            advanced_regex: false,
        };
        let parsed = must_parse_search_config(search_config);

        assert_eq!(
            replacement_if_match("hello WORLD", &parsed.search, &parsed.replace),
            None
        );
    }
    {
        let re_str = r"world";
        let search_config = SearchConfiguration {
            search_text: re_str,
            fixed_strings: false,
            match_whole_word: false,
            match_case: true,
            replacement_text: "earth",
            advanced_regex: false,
        };
        let parsed = must_parse_search_config(search_config);

        assert_eq!(
            replacement_if_match("hello WORLD", &parsed.search, &parsed.replace),
            None
        );
    }
    {
        let re_str = r"world";
        let search_config = SearchConfiguration {
            search_text: re_str,
            match_whole_word: true,
            fixed_strings: false,
            advanced_regex: true,
            match_case: true,
            replacement_text: "earth",
        };
        let parsed = must_parse_search_config(search_config);

        assert_eq!(
            replacement_if_match("hello WORLD", &parsed.search, &parsed.replace),
            None
        );
    }
    {
        let re_str = r"WORLD";
        let search_config = SearchConfiguration {
            search_text: re_str,
            match_whole_word: false,
            fixed_strings: false,
            advanced_regex: true,
            match_case: true,
            replacement_text: "earth",
        };
        let parsed = must_parse_search_config(search_config);

        assert_eq!(
            replacement_if_match("hello world", &parsed.search, &parsed.replace),
            None
        );
    }
}

#[test]
fn replace_test_word_boundaries() {
    {
        let search_config = SearchConfiguration {
            search_text: "world",
            fixed_strings: true,
            match_whole_word: true,
            match_case: true,
            replacement_text: "earth",
            advanced_regex: false,
        };
        let parsed = must_parse_search_config(search_config);

        assert_eq!(
            replacement_if_match("worldwide", &parsed.search, &parsed.replace),
            None
        );
    }
    {
        let search_config = SearchConfiguration {
            search_text: "world",
            fixed_strings: true,
            match_whole_word: true,
            match_case: false,
            replacement_text: "earth",
            advanced_regex: false,
        };
        let parsed = must_parse_search_config(search_config);

        assert_eq!(
            replacement_if_match("worldwide", &parsed.search, &parsed.replace),
            None
        );
    }
    {
        let re_str = r"world";
        let search_config = SearchConfiguration {
            search_text: re_str,
            fixed_strings: false,
            match_whole_word: true,
            match_case: true,
            replacement_text: "earth",
            advanced_regex: false,
        };
        let parsed = must_parse_search_config(search_config);

        assert_eq!(
            replacement_if_match("worldwide", &parsed.search, &parsed.replace),
            None
        );
    }
    {
        let re_str = r"world";
        let search_config = SearchConfiguration {
            search_text: re_str,
            fixed_strings: false,
            match_whole_word: true,
            match_case: false,
            replacement_text: "earth",
            advanced_regex: false,
        };
        let parsed = must_parse_search_config(search_config);

        assert_eq!(
            replacement_if_match("worldwide", &parsed.search, &parsed.replace),
            None
        );
    }
    {
        let re_str = r"world";
        let search_config = SearchConfiguration {
            search_text: re_str,
            match_whole_word: true,
            fixed_strings: false,
            advanced_regex: true,
            match_case: false,
            replacement_text: "earth",
        };
        let parsed = must_parse_search_config(search_config);

        assert_eq!(
            replacement_if_match("worldwide", &parsed.search, &parsed.replace),
            None
        );
    }
    {
        let search_config = SearchConfiguration {
            search_text: "world",
            fixed_strings: true,
            match_whole_word: true,
            match_case: false,
            replacement_text: "earth",
            advanced_regex: false,
        };
        let parsed = must_parse_search_config(search_config);
        assert_eq!(
            replacement_if_match(",world-", &parsed.search, &parsed.replace),
            Some(",earth-".to_string())
        );
        let search_config = SearchConfiguration {
            search_text: "world",
            fixed_strings: true,
            match_whole_word: true,
            match_case: false,
            replacement_text: "earth",
            advanced_regex: false,
        };
        let parsed = must_parse_search_config(search_config);
        assert_eq!(
            replacement_if_match("world-word", &parsed.search, &parsed.replace),
            Some("earth-word".to_string())
        );
        let search_config = SearchConfiguration {
            search_text: "world",
            fixed_strings: true,
            match_whole_word: true,
            match_case: false,
            replacement_text: "earth",
            advanced_regex: false,
        };
        let parsed = must_parse_search_config(search_config);
        assert_eq!(
            replacement_if_match("Hello-world!", &parsed.search, &parsed.replace),
            Some("Hello-earth!".to_string())
        );
    }
}

#[test]
fn replace_test_case_insensitivity() {
    {
        let search_config = SearchConfiguration {
            search_text: "world",
            fixed_strings: true,
            match_whole_word: true,
            match_case: false,
            replacement_text: "earth",
            advanced_regex: false,
        };
        let parsed = must_parse_search_config(search_config);

        assert_eq!(
            replacement_if_match("hello WORLD", &parsed.search, &parsed.replace),
            Some("hello earth".to_string())
        );
    }
    {
        let search_config = SearchConfiguration {
            search_text: "world",
            fixed_strings: true,
            match_whole_word: false,
            match_case: false,
            replacement_text: "earth",
            advanced_regex: false,
        };
        let parsed = must_parse_search_config(search_config);

        assert_eq!(
            replacement_if_match("hello WORLD", &parsed.search, &parsed.replace),
            Some("hello earth".to_string())
        );
    }
}

#[test]
fn test_unicode() {
    let search_config = SearchConfiguration {
        search_text: "café",
        fixed_strings: true,
        match_whole_word: true,
        match_case: false,
        replacement_text: "restaurant",
        advanced_regex: false,
    };
    let parsed = must_parse_search_config(search_config);

    assert_eq!(
        replacement_if_match("Hello CAFÉ table", &parsed.search, &parsed.replace),
        Some("Hello restaurant table".to_string())
    );
}

#[test]
fn replace_test_substring_matches() {
    {
        let search_config = SearchConfiguration {
            search_text: "world",
            fixed_strings: true,
            match_whole_word: false,
            match_case: true,
            replacement_text: "earth",
            advanced_regex: false,
        };
        let parsed = must_parse_search_config(search_config);

        assert_eq!(
            replacement_if_match("worldwide", &parsed.search, &parsed.replace),
            Some("earthwide".to_string())
        );
    }
    {
        let search_config = SearchConfiguration {
            search_text: "world",
            fixed_strings: true,
            match_whole_word: false,
            match_case: false,
            replacement_text: "earth",
            advanced_regex: false,
        };
        let parsed = must_parse_search_config(search_config);

        assert_eq!(
            replacement_if_match("WORLDWIDE", &parsed.search, &parsed.replace),
            Some("earthWIDE".to_string())
        );
    }
    {
        let re_str = r"world";
        let search_config = SearchConfiguration {
            search_text: re_str,
            fixed_strings: false,
            match_whole_word: false,
            match_case: true,
            replacement_text: "earth",
            advanced_regex: false,
        };
        let parsed = must_parse_search_config(search_config);

        assert_eq!(
            replacement_if_match("worldwide", &parsed.search, &parsed.replace),
            Some("earthwide".to_string())
        );
    }
    {
        let re_str = r"world";
        let search_config = SearchConfiguration {
            search_text: re_str,
            fixed_strings: false,
            match_whole_word: false,
            match_case: false,
            replacement_text: "earth",
            advanced_regex: false,
        };
        let parsed = must_parse_search_config(search_config);

        assert_eq!(
            replacement_if_match("WORLDWIDE", &parsed.search, &parsed.replace),
            Some("earthWIDE".to_string())
        );
    }
}

#[test]
fn replace_test_basic_regex() {
    {
        let re_str = r"w\w+d";
        let search_config = SearchConfiguration {
            search_text: re_str,
            fixed_strings: false,
            match_whole_word: true,
            match_case: true,
            replacement_text: "earth",
            advanced_regex: false,
        };
        let parsed = must_parse_search_config(search_config);

        assert_eq!(
            replacement_if_match("hello world", &parsed.search, &parsed.replace),
            Some("hello earth".to_string())
        );
    }
    {
        let re_str = r"w\w+d";
        let search_config = SearchConfiguration {
            search_text: re_str,
            fixed_strings: false,
            match_whole_word: true,
            match_case: false,
            replacement_text: "earth",
            advanced_regex: false,
        };
        let parsed = must_parse_search_config(search_config);

        assert_eq!(
            replacement_if_match("hello WORLD", &parsed.search, &parsed.replace),
            Some("hello earth".to_string())
        );
    }
    {
        let re_str = r"w\w+d";
        let search_config = SearchConfiguration {
            search_text: re_str,
            fixed_strings: false,
            match_whole_word: false,
            match_case: true,
            replacement_text: "earth",
            advanced_regex: false,
        };
        let parsed = must_parse_search_config(search_config);

        assert_eq!(
            replacement_if_match("hello world", &parsed.search, &parsed.replace),
            Some("hello earth".to_string())
        );
    }
    {
        let re_str = r"w\w+d";
        let search_config = SearchConfiguration {
            search_text: re_str,
            fixed_strings: false,
            match_whole_word: false,
            match_case: false,
            replacement_text: "earth",
            advanced_regex: false,
        };
        let parsed = must_parse_search_config(search_config);

        assert_eq!(
            replacement_if_match("hello WORLD", &parsed.search, &parsed.replace),
            Some("hello earth".to_string())
        );
    }
}

#[test]
fn test_special_characters() {
    let re_str = r"\d+";
    let search_config = SearchConfiguration {
        search_text: re_str,
        fixed_strings: false,
        match_whole_word: true,
        match_case: false,
        replacement_text: "NUM",
        advanced_regex: false,
    };
    let parsed = must_parse_search_config(search_config);

    assert_eq!(
        replacement_if_match("test 123 number", &parsed.search, &parsed.replace),
        Some("test NUM number".to_string())
    );
}

#[test]
fn test_unicode_word_boundaries() {
    let re_str = r"\b\p{Script=Han}{2}\b";
    let search_config = SearchConfiguration {
        search_text: re_str,
        fixed_strings: false,
        match_whole_word: true,
        match_case: false,
        replacement_text: "XX",
        advanced_regex: false,
    };
    let parsed = must_parse_search_config(search_config);

    assert!(
        replacement_if_match("Text 世界 more", &parsed.search, &parsed.replace)
            .is_some()
    );
    assert!(replacement_if_match("Text世界more", &parsed.search, "XX").is_none());
}

#[test]
fn replace_test_complex_pattern() {
    {
        let re_str = r"\d{3}-\d{2}-\d{4}";
        let search_config = SearchConfiguration {
            search_text: re_str,
            fixed_strings: false,
            match_whole_word: false,
            match_case: false,
            replacement_text: "XXX-XX-XXXX",
            advanced_regex: false,
        };
        let parsed = must_parse_search_config(search_config);

        assert_eq!(
            replacement_if_match("SSN: 123-45-6789", &parsed.search, &parsed.replace),
            Some("SSN: XXX-XX-XXXX".to_string())
        );
    }
    {
        let re_str = r"(?<=\d{4}-\d{2}-\d{2}T)\d{2}:\d{2}";
        let search_config = SearchConfiguration {
            search_text: re_str,
            match_whole_word: false,
            fixed_strings: false,
            advanced_regex: true,
            match_case: true,
            replacement_text: "XX:XX",
        };
        let parsed = must_parse_search_config(search_config);

        assert_eq!(
            replacement_if_match(
                "Timestamp: 2023-01-15T14:30:00Z",
                &parsed.search,
                &parsed.replace
            ),
            Some("Timestamp: 2023-01-15TXX:XX:00Z".to_string())
        );
    }
}

#[test]
fn test_lookbehind() {
    let re_str = r"(?<=@)\w+";
    let search_config = SearchConfiguration {
        search_text: re_str,
        match_whole_word: true,
        fixed_strings: false,
        advanced_regex: true,
        match_case: true,
        replacement_text: "domain",
    };
    let parsed = must_parse_search_config(search_config);

    assert_eq!(
        replacement_if_match(
            "email: user@example.com",
            &parsed.search,
            &parsed.replace
        ),
        Some("email: user@domain.com".to_string())
    );
}

#[test]
fn test_lookahead() {
    let re_str = r"\w+(?=\.\w+$)";
    let search_config = SearchConfiguration {
        search_text: re_str,
        match_whole_word: true,
        fixed_strings: false,
        advanced_regex: true,
        match_case: true,
        replacement_text: "report",
    };
    let parsed = must_parse_search_config(search_config);

    assert_eq!(
        replacement_if_match("file: document.pdf", &parsed.search, &parsed.replace),
        Some("file: report.pdf".to_string())
    );
}

#[test]
fn test_lookbehind_case_insensitive() {
    let re_str = r"(?<=@)\w+";
    let search_config = SearchConfiguration {
        search_text: re_str,
        match_whole_word: true,
        fixed_strings: false,
        advanced_regex: true,
        match_case: false,
        replacement_text: "domain",
    };
    let parsed = must_parse_search_config(search_config);

    assert_eq!(
        replacement_if_match(
            "email: user@EXAMPLE.com",
            &parsed.search,
            &parsed.replace
        ),
        Some("email: user@domain.com".to_string())
    );
}

#[test]
fn test_complex_pattern_case_insensitive() {
    let re_str = r"(?<=\[)\w+(?=\])";
    let search_config = SearchConfiguration {
        search_text: re_str,
        match_whole_word: false,
        fixed_strings: false,
        advanced_regex: true,
        match_case: false,
        replacement_text: "ERROR",
    };
    let parsed = must_parse_search_config(search_config);

    assert_eq!(
        replacement_if_match(
            "Tag: [WARNING] message",
            &parsed.search,
            &parsed.replace
        ),
        Some("Tag: [ERROR] message".to_string())
    );
}

#[test]
fn test_unicode_support() {
    let re_str = r"\p{Greek}+";
    let search_config = SearchConfiguration {
        search_text: re_str,
        match_whole_word: false,
        fixed_strings: false,
        advanced_regex: true,
        match_case: false,
        replacement_text: "GREEK",
    };
    let parsed = must_parse_search_config(search_config);

    assert_eq!(
        replacement_if_match("Symbol: αβγδ", &parsed.search, &parsed.replace),
        Some("Symbol: GREEK".to_string())
    );
}

#[test]
fn test_multiple_replacements() {
    let search_config = SearchConfiguration {
        search_text: "world",
        fixed_strings: true,
        match_whole_word: true,
        match_case: false,
        replacement_text: "earth",
        advanced_regex: false,
    };
    let parsed = must_parse_search_config(search_config);
    assert_eq!(
        replacement_if_match("world hello world", &parsed.search, &parsed.replace),
        Some("earth hello earth".to_string())
    );
}

#[test]
fn test_no_match() {
    let search_config = SearchConfiguration {
        search_text: "world",
        fixed_strings: true,
        match_whole_word: true,
        match_case: false,
        replacement_text: "earth",
        advanced_regex: false,
    };
    let parsed = must_parse_search_config(search_config);
    assert_eq!(
        replacement_if_match("worldwide", &parsed.search, &parsed.replace),
        None
    );
    let search_config = SearchConfiguration {
        search_text: "world",
        fixed_strings: true,
        match_whole_word: true,
        match_case: false,
        replacement_text: "earth",
        advanced_regex: false,
    };
    let parsed = must_parse_search_config(search_config);
    assert_eq!(
        replacement_if_match("_world_", &parsed.search, &parsed.replace),
        None
    );
}

#[test]
fn test_case_sensitive() {
    let search_config = SearchConfiguration {
        search_text: "world",
        fixed_strings: true,
        match_whole_word: true,
        match_case: true,
        replacement_text: "earth",
        advanced_regex: false,
    };
    let parsed = must_parse_search_config(search_config);
    assert_eq!(
        replacement_if_match("Hello WORLD", &parsed.search, &parsed.replace),
        None
    );
    let search_config = SearchConfiguration {
        search_text: "wOrld",
        fixed_strings: true,
        match_whole_word: true,
        match_case: true,
        replacement_text: "earth",
        advanced_regex: false,
    };
    let parsed = must_parse_search_config(search_config);
    assert_eq!(
        replacement_if_match("Hello world", &parsed.search, &parsed.replace),
        None
    );
}

#[test]
fn test_empty_strings() {
    let search_config = SearchConfiguration {
        search_text: "world",
        fixed_strings: true,
        match_whole_word: true,
        match_case: false,
        replacement_text: "earth",
        advanced_regex: false,
    };
    let parsed = must_parse_search_config(search_config);
    assert_eq!(
        replacement_if_match("", &parsed.search, &parsed.replace),
        None
    );
    let search_config = SearchConfiguration {
        search_text: "",
        fixed_strings: true,
        match_whole_word: true,
        match_case: false,
        replacement_text: "earth",
        advanced_regex: false,
    };
    let parsed = must_parse_search_config(search_config);
    assert_eq!(
        replacement_if_match("hello world", &parsed.search, &parsed.replace),
        None
    );
}

#[test]
fn test_substring_no_match() {
    let search_config = SearchConfiguration {
        search_text: "world",
        fixed_strings: true,
        match_whole_word: true,
        match_case: false,
        replacement_text: "earth",
        advanced_regex: false,
    };
    let parsed = must_parse_search_config(search_config);
    assert_eq!(
        replacement_if_match("worldwide web", &parsed.search, &parsed.replace),
        None
    );
    let search_config = SearchConfiguration {
        search_text: "world",
        fixed_strings: true,
        match_whole_word: true,
        match_case: false,
        replacement_text: "earth",
        advanced_regex: false,
    };
    let parsed = must_parse_search_config(search_config);
    assert_eq!(
        replacement_if_match("underworld", &parsed.search, &parsed.replace),
        None
    );
}

#[test]
fn test_special_regex_chars() {
    let search_config = SearchConfiguration {
        search_text: "(world)",
        fixed_strings: true,
        match_whole_word: true,
        match_case: false,
        replacement_text: "earth",
        advanced_regex: false,
    };
    let parsed = must_parse_search_config(search_config);
    assert_eq!(
        replacement_if_match("hello (world)", &parsed.search, &parsed.replace),
        Some("hello earth".to_string())
    );
    let search_config = SearchConfiguration {
        search_text: "world.*",
        fixed_strings: true,
        match_whole_word: true,
        match_case: false,
        replacement_text: "ea+rth",
        advanced_regex: false,
    };
    let parsed = must_parse_search_config(search_config);
    assert_eq!(
        replacement_if_match("hello world.*", &parsed.search, &parsed.replace),
        Some("hello ea+rth".to_string())
    );
}

#[test]
fn test_basic_regex_patterns() {
    let re_str = r"ax*b";
    let search_config = SearchConfiguration {
        search_text: re_str,
        fixed_strings: false,
        match_whole_word: true,
        match_case: false,
        replacement_text: "NEW",
        advanced_regex: false,
    };
    let parsed = must_parse_search_config(search_config);
    assert_eq!(
        replacement_if_match("foo axxxxb bar", &parsed.search, &parsed.replace),
        Some("foo NEW bar".to_string())
    );
    let search_config = SearchConfiguration {
        search_text: re_str,
        fixed_strings: false,
        match_whole_word: true,
        match_case: false,
        replacement_text: "NEW",
        advanced_regex: false,
    };
    let parsed = must_parse_search_config(search_config);
    assert_eq!(
        replacement_if_match("fooaxxxxb bar", &parsed.search, &parsed.replace),
        None
    );
}

#[test]
fn test_patterns_with_spaces() {
    let re_str = r"hel+o world";
    let search_config = SearchConfiguration {
        search_text: re_str,
        fixed_strings: false,
        match_whole_word: true,
        match_case: false,
        replacement_text: "hi earth",
        advanced_regex: false,
    };
    let parsed = must_parse_search_config(search_config);
    assert_eq!(
        replacement_if_match("say hello world!", &parsed.search, &parsed.replace),
        Some("say hi earth!".to_string())
    );
    let search_config = SearchConfiguration {
        search_text: re_str,
        fixed_strings: false,
        match_whole_word: true,
        match_case: false,
        replacement_text: "hi earth",
        advanced_regex: false,
    };
    let parsed = must_parse_search_config(search_config);
    assert_eq!(
        replacement_if_match("helloworld", &parsed.search, &parsed.replace),
        None
    );
}

#[test]
fn test_multiple_matches() {
    let re_str = r"a+b+";
    let search_config = SearchConfiguration {
        search_text: re_str,
        fixed_strings: false,
        match_whole_word: true,
        match_case: false,
        replacement_text: "X",
        advanced_regex: false,
    };
    let parsed = must_parse_search_config(search_config);
    assert_eq!(
        replacement_if_match("foo aab abb", &parsed.search, &parsed.replace),
        Some("foo X X".to_string())
    );
    let search_config = SearchConfiguration {
        search_text: re_str,
        fixed_strings: false,
        match_whole_word: true,
        match_case: false,
        replacement_text: "X",
        advanced_regex: false,
    };
    let parsed = must_parse_search_config(search_config);
    assert_eq!(
        replacement_if_match("ab abaab abb", &parsed.search, &parsed.replace),
        Some("X abaab X".to_string())
    );
    let search_config = SearchConfiguration {
        search_text: re_str,
        fixed_strings: false,
        match_whole_word: true,
        match_case: false,
        replacement_text: "X",
        advanced_regex: false,
    };
    let parsed = must_parse_search_config(search_config);
    assert_eq!(
        replacement_if_match("ababaababb", &parsed.search, &parsed.replace),
        None
    );
    let search_config = SearchConfiguration {
        search_text: re_str,
        fixed_strings: false,
        match_whole_word: true,
        match_case: false,
        replacement_text: "X",
        advanced_regex: false,
    };
    let parsed = must_parse_search_config(search_config);
    assert_eq!(
        replacement_if_match("ab ab aab abb", &parsed.search, &parsed.replace),
        Some("X X X X".to_string())
    );
}

#[test]
fn test_boundary_cases() {
    let re_str = r"foo\s*bar";
    // At start of string
    let search_config = SearchConfiguration {
        search_text: re_str,
        fixed_strings: false,
        match_whole_word: true,
        match_case: false,
        replacement_text: "TEST",
        advanced_regex: false,
    };
    let parsed = must_parse_search_config(search_config);
    assert_eq!(
        replacement_if_match("foo bar baz", &parsed.search, &parsed.replace),
        Some("TEST baz".to_string())
    );
    // At end of string
    let search_config = SearchConfiguration {
        search_text: re_str,
        fixed_strings: false,
        match_whole_word: true,
        match_case: false,
        replacement_text: "TEST",
        advanced_regex: false,
    };
    let parsed = must_parse_search_config(search_config);
    assert_eq!(
        replacement_if_match("baz foo bar", &parsed.search, &parsed.replace),
        Some("baz TEST".to_string())
    );
    // With punctuation
    let search_config = SearchConfiguration {
        search_text: re_str,
        fixed_strings: false,
        match_whole_word: true,
        match_case: false,
        replacement_text: "TEST",
        advanced_regex: false,
    };
    let parsed = must_parse_search_config(search_config);
    assert_eq!(
        replacement_if_match("a (?( foo  bar)", &parsed.search, &parsed.replace),
        Some("a (?( TEST)".to_string())
    );
}

#[test]
fn test_with_punctuation() {
    let re_str = r"a\d+b";
    let search_config = SearchConfiguration {
        search_text: re_str,
        fixed_strings: false,
        match_whole_word: true,
        match_case: false,
        replacement_text: "X",
        advanced_regex: false,
    };
    let parsed = must_parse_search_config(search_config);
    assert_eq!(
        replacement_if_match("(a42b)", &parsed.search, &parsed.replace),
        Some("(X)".to_string())
    );
    let search_config = SearchConfiguration {
        search_text: re_str,
        fixed_strings: false,
        match_whole_word: true,
        match_case: false,
        replacement_text: "X",
        advanced_regex: false,
    };
    let parsed = must_parse_search_config(search_config);
    assert_eq!(
        replacement_if_match("foo.a123b!bar", &parsed.search, &parsed.replace),
        Some("foo.X!bar".to_string())
    );
}

#[test]
fn test_complex_patterns() {
    let re_str = r"[a-z]+\d+[a-z]+";
    let search_config = SearchConfiguration {
        search_text: re_str,
        fixed_strings: false,
        match_whole_word: true,
        match_case: false,
        replacement_text: "NEW",
        advanced_regex: false,
    };
    let parsed = must_parse_search_config(search_config);
    assert_eq!(
        replacement_if_match("test9 abc123def 8xyz", &parsed.search, &parsed.replace),
        Some("test9 NEW 8xyz".to_string())
    );
    let search_config = SearchConfiguration {
        search_text: re_str,
        fixed_strings: false,
        match_whole_word: true,
        match_case: false,
        replacement_text: "NEW",
        advanced_regex: false,
    };
    let parsed = must_parse_search_config(search_config);
    assert_eq!(
        replacement_if_match("test9abc123def8xyz", &parsed.search, &parsed.replace),
        None
    );
}

#[test]
fn test_optional_patterns() {
    let re_str = r"colou?r";
    let search_config = SearchConfiguration {
        search_text: re_str,
        fixed_strings: false,
        match_whole_word: true,
        match_case: false,
        replacement_text: "X",
        advanced_regex: false,
    };
    let parsed = must_parse_search_config(search_config);
    assert_eq!(
        replacement_if_match("my color and colour", &parsed.search, &parsed.replace),
        Some("my X and X".to_string())
    );
}

#[test]
fn test_empty_haystack() {
    let re_str = r"test";
    let search_config = SearchConfiguration {
        search_text: re_str,
        fixed_strings: false,
        match_whole_word: true,
        match_case: false,
        replacement_text: "NEW",
        advanced_regex: false,
    };
    let parsed = must_parse_search_config(search_config);
    assert_eq!(
        replacement_if_match("", &parsed.search, &parsed.replace),
        None
    );
}

#[test]
fn test_empty_search_regex() {
    let re_str = r"";
    let search_config = SearchConfiguration {
        search_text: re_str,
        fixed_strings: false,
        match_whole_word: true,
        match_case: false,
        replacement_text: "NEW",
        advanced_regex: false,
    };
    let parsed = must_parse_search_config(search_config);
    assert_eq!(
        replacement_if_match("search", &parsed.search, &parsed.replace),
        None
    );
}

#[test]
fn test_single_char() {
    let re_str = r"a";
    let search_config = SearchConfiguration {
        search_text: re_str,
        fixed_strings: false,
        match_whole_word: true,
        match_case: false,
        replacement_text: "X",
        advanced_regex: false,
    };
    let parsed = must_parse_search_config(search_config);
    assert_eq!(
        replacement_if_match("b a c", &parsed.search, &parsed.replace),
        Some("b X c".to_string())
    );
    let search_config = SearchConfiguration {
        search_text: re_str,
        fixed_strings: false,
        match_whole_word: true,
        match_case: false,
        replacement_text: "X",
        advanced_regex: false,
    };
    let parsed = must_parse_search_config(search_config);
    assert_eq!(
        replacement_if_match("bac", &parsed.search, &parsed.replace),
        None
    );
}

#[test]
fn test_escaped_chars() {
    let re_str = r"\(\d+\)";
    let search_config = SearchConfiguration {
        search_text: re_str,
        fixed_strings: false,
        match_whole_word: true,
        match_case: false,
        replacement_text: "X",
        advanced_regex: false,
    };
    let parsed = must_parse_search_config(search_config);
    assert_eq!(
        replacement_if_match("test (123) foo", &parsed.search, &parsed.replace),
        Some("test X foo".to_string())
    );
}

#[test]
fn test_with_unicode() {
    let re_str = r"λ\d+";
    let search_config = SearchConfiguration {
        search_text: re_str,
        fixed_strings: false,
        match_whole_word: true,
        match_case: false,
        replacement_text: "X",
        advanced_regex: false,
    };
    let parsed = must_parse_search_config(search_config);
    assert_eq!(
        replacement_if_match("calc λ123 β", &parsed.search, &parsed.replace),
        Some("calc X β".to_string())
    );
    let search_config = SearchConfiguration {
        search_text: re_str,
        fixed_strings: false,
        match_whole_word: true,
        match_case: false,
        replacement_text: "X",
        advanced_regex: false,
    };
    let parsed = must_parse_search_config(search_config);
    assert_eq!(
        replacement_if_match("calcλ123", &parsed.search, &parsed.replace),
        None
    );
}
