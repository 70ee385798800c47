use bundler_lib::ast_bundler::{ConstItem, LitValue, SourceUnit};
use bundler_lib::filename_generator::{format_classified, CharClass, FilenameGenerator};
use bundler_lib::naming::{extract_id, extract_problem_name, output_filename, sanitize};

fn consts(items: Vec<(&str, LitValue)>) -> SourceUnit {
    SourceUnit {
        entries: Vec::new(),
        consts: items.into_iter().map(|(n, v)| ConstItem { name: n.to_string(), value: v }).collect(),
    }
}

#[test]
fn test_format_problem_name() {
    let generator = FilenameGenerator::new();
    assert_eq!(generator.format_problem_name("A. Simple Problem"), "a._simple_problem");
    assert_eq!(generator.format_problem_name("D2. Magic Powder"), "d2._magic_powder");
    assert_eq!(generator.format_problem_name("F1. Tree Cutting (Easy Version)"), "f1._tree_cutting_easy_version");
    assert_eq!(generator.format_problem_name("C. Some-Complex_Problem!"), "c._some_complex_problem");
}

#[test]
fn test_generate_filename() {
    let generator = FilenameGenerator::new();
    let filename = generator.generate_filename("A. Test Problem", 1700000000);
    assert!(filename.starts_with("a._test_problem_"));
    assert!(filename.ends_with(".rs"));
    assert!(filename.len() > "a._test_problem_.rs".len());
    assert_eq!(filename, "a._test_problem_1700000000.rs");
}

#[test]
fn uses_id_for_output_filename_without_timestamp() {
    let unit = consts(vec![("ID", LitValue::Str("ABC-123".to_string()))]);
    assert_eq!(output_filename(&unit, 99), "solution_ABC_123.rs");
    assert!(extract_id(&unit).is_some());
}

#[test]
fn output_filename_falls_back_to_title_then_stamp() {
    let titled = consts(vec![("_PROBLEM", LitValue::Str("B. Two Sums".to_string()))]);
    assert_eq!(output_filename(&titled, 12), "b._two_sums_12.rs");
    assert_eq!(extract_problem_name(&titled), Some("B. Two Sums".to_string()));
    let bare = consts(vec![("_PROBLEM", LitValue::Int("5".to_string()))]);
    assert_eq!(extract_problem_name(&bare), None);
    assert_eq!(output_filename(&bare, 12), "solution_12.rs");
}

#[test]
fn id_is_sanitized_and_must_not_be_empty() {
    assert_eq!(sanitize("__a-b c__"), "a_b_c");
    assert_eq!(sanitize("A--B  c"), "A_B_c");
    let runs = consts(vec![("ID", LitValue::Str("A--B  c".to_string()))]);
    assert_eq!(extract_id(&runs), Some("A_B_c".to_string()));
    let empty_first = consts(vec![
        ("_ID", LitValue::Str("--".to_string())),
        ("ID", LitValue::Int("1234".to_string())),
    ]);
    assert_eq!(extract_id(&empty_first), Some("1234".to_string()));
    let other = consts(vec![("ID", LitValue::Other)]);
    assert_eq!(extract_id(&other), None);
}

#[test]
fn classified_characters_are_formatted() {
    let cs: Vec<char> = "A. b+".chars().collect();
    let cls = vec![CharClass::Letter('a'), CharClass::Dot, CharClass::Space, CharClass::Letter('b'), CharClass::Other];
    assert_eq!(format_classified(&cs, &cls), "a._b_");
}
