use argspec::args::is_flag_token;
use argspec::text::path_final_segment;
use argspec::{Args, ArgsError};

#[test]
fn flag_tokens_are_never_bound() {
    let mut args = Args::from(vec!["-a", "abc", "+b", "def", "x-y"]);
    args.required("one").required("two").optional("three").optional("four");

    assert_eq!(args.get_arg("one"), Some(String::from("abc")));
    assert_eq!(args.get_arg("two"), Some(String::from("def")));
    assert_eq!(args.get_arg("three"), Some(String::from("x-y")));
    assert_eq!(args.get_arg("four"), None);
    assert!(args.has_flag("-a"));
    assert!(args.has_flag("+b"));
    assert!(!args.has_flag("abc"));
    assert!(!args.has_flag("x-y"));
}

#[test]
fn empty_token_is_positional() {
    let mut args = Args::from(vec!["", "-v"]);
    args.required("one");

    assert_eq!(args.get_arg("one"), Some(String::new()));
    assert!(!args.has_flag(""));
    assert!(args.check().is_ok());
}

#[test]
fn flag_token_classification() {
    assert!(is_flag_token("-"));
    assert!(is_flag_token("+x"));
    assert!(is_flag_token("--long"));
    assert!(!is_flag_token(""));
    assert!(!is_flag_token("a-b"));
    assert!(!is_flag_token("é-"));
}

#[test]
fn required_pair_binds_in_order() {
    let mut args = Args::from(vec!["abc", "def"]);
    args.required("one").required("two");

    assert_eq!(args.get_arg("one"), Some(String::from("abc")));
    assert_eq!(args.get_arg("two"), Some(String::from("def")));
}

#[test]
fn missing_required_reports_one_problem() {
    let mut args = Args::from(vec!["abc"]);
    args.required("one").required("two");

    let problems: Vec<String> = match args.check() {
        Ok(_) => panic!("check passed"),
        Err(e) => e.get_problems().to_vec(),
    };
    assert_eq!(problems, vec![String::from("required argument 'two' not found")]);
    assert_eq!(args.get_arg("one"), Some(String::from("abc")));
    assert_eq!(args.get_arg("two"), None);
}

#[test]
fn every_missing_required_is_reported_in_order() {
    let mut args = Args::from(Vec::<&str>::new());
    args.required("a").required("b").optional("c");

    let problems: Vec<String> = match args.check() {
        Ok(_) => panic!("check passed"),
        Err(e) => e.get_problems().to_vec(),
    };
    assert_eq!(
        problems,
        vec![
            String::from("required argument 'a' not found"),
            String::from("required argument 'b' not found"),
        ]
    );
}

#[test]
fn optional_without_candidates_is_no_problem() {
    let mut args = Args::from(Vec::<&str>::new());
    args.optional("x");

    assert!(args.check().is_ok());
    assert_eq!(args.get_arg("x"), None);
}

#[test]
fn undeclared_flag_is_detected() {
    let mut args = Args::from(vec!["abc", "-q"]);
    args.flag("-v");

    assert!(args.has_flag("-q"));
    assert!(!args.has_flag("-v"));
    assert!(!args.has_flag("-Q"));
    assert!(!args.has_flag("-q "));
}

#[test]
fn usage_with_path_and_flags() {
    let mut args = Args::from(vec!["abc"]);
    args.set_program_name(Some(String::from("/x/y/z/hello-world")));
    args.required("one").optional("two").flag("-v").flag("+b");

    assert_eq!(args.to_string(), "hello-world <one> [two] [-v] [+b] ");
}

#[test]
fn usage_without_any_declaration() {
    let args = Args::from(vec!["abc"]);

    assert_eq!(args.to_string(), "");
}

#[test]
fn queries_repeat() {
    let mut args = Args::from(vec!["abc", "-a"]);
    args.required("one").optional("two");

    for _ in 0..3 {
        assert_eq!(args.get_arg("one"), Some(String::from("abc")));
        assert_eq!(args.get_arg("two"), None);
        assert!(args.has_flag("-a"));
        assert!(!args.has_flag("-b"));
    }
    assert!(args.check().is_ok());
    assert!(args.check().is_ok());
}

#[test]
fn declaration_guards() {
    let mut args = Args::from(vec!["abc"]);
    assert!(!args.is_declared("one"));
    assert!(!args.has_optional());
    args.required("one");
    assert!(args.is_declared("one"));
    assert!(!args.has_optional());
    args.optional("two");
    assert!(args.is_declared("two"));
    assert!(args.has_optional());
    assert!(!args.is_flag_declared("-v"));
    args.flag("-v");
    assert!(args.is_flag_declared("-v"));
}

#[test]
fn final_path_segment() {
    assert_eq!(path_final_segment("/x/y/z/hello-world"), "hello-world");
    assert_eq!(path_final_segment("hello"), "hello");
    assert_eq!(path_final_segment("/x/y/"), "");
    assert_eq!(path_final_segment(""), "");
}

#[test]
fn debug_text_escapes_quotes() {
    let mut args = Args::from(vec!["abc"]);
    args.set_program_name(Some(String::from("a\"b")));
    args.flag("-v");

    assert_eq!(args.to_debug_string(), "Args { program_name: \"a\\\"b\", flag: \"-v\" }");
}

#[test]
fn error_count_in_decimal() {
    let problems: Vec<String> = (0..12).map(|i| format!("p{}", i)).collect();
    let error = ArgsError::from(&problems);

    assert_eq!(error.to_string(), "ArgsError - 12 problems");
    assert_eq!(error.get_problems().len(), 12);
}

#[test]
fn error_from_slice_keeps_order() {
    let problems = vec![String::from("b"), String::from("a")];
    let error = ArgsError::from(problems.as_slice());

    assert_eq!(error.get_problems(), &problems[..]);
    assert_eq!(error.to_debug_string(), "ArgsError { error: \"b\", error: \"a\" }");
}
