use bundler_lib::scanner::Scanner;
use std::str::FromStr;

/// The next token parsed as `T`; panics at the end of input or on a token
/// that does not parse.
fn read<T: FromStr>(scanner: &mut Scanner) -> T {
    scanner.next().expect("Unexpected end of input").parse().ok().unwrap()
}

/// The next `n` tokens parsed as `T`, called `kind` in messages.
fn read_n<T: FromStr>(scanner: &mut Scanner, n: usize, kind: &str) -> Vec<T> {
    let tokens = scanner.dump(n).expect("Unexpected end of input while reading entry");
    tokens
        .into_iter()
        .map(|t| match t.parse::<T>() {
            Ok(v) => v,
            Err(_) => panic!("Failed to parse '{}' as type {}", t, kind),
        })
        .collect()
}

#[test]
fn test_scanner_single_integer() {
    let mut scanner = Scanner::from_string("42".to_string());
    let result: i32 = read(&mut scanner);
    assert_eq!(result, 42);
}

#[test]
fn test_scanner_multiple_integers() {
    let mut scanner = Scanner::from_string("10 20 30 40".to_string());
    let a: i32 = read(&mut scanner);
    let b: i32 = read(&mut scanner);
    let c: i32 = read(&mut scanner);
    let d: i32 = read(&mut scanner);
    assert_eq!((a, b, c, d), (10, 20, 30, 40));
}

#[test]
fn test_scanner_string_parsing() {
    let mut scanner = Scanner::from_string("hello world".to_string());
    let first: String = read(&mut scanner);
    let second: String = read(&mut scanner);
    assert_eq!(first, "hello");
    assert_eq!(second, "world");
}

#[test]
fn test_scanner_floating_point() {
    let mut scanner = Scanner::from_string("3.14159 2.718".to_string());
    let pi: f64 = read(&mut scanner);
    let e: f64 = read(&mut scanner);
    assert_eq!(pi, 3.14159);
    assert_eq!(e, 2.718);
}

#[test]
fn test_scanner_negative_numbers() {
    let mut scanner = Scanner::from_string("-42 -100 -1".to_string());
    let a: i32 = read(&mut scanner);
    let b: i32 = read(&mut scanner);
    let c: i32 = read(&mut scanner);
    assert_eq!((a, b, c), (-42, -100, -1));
}

#[test]
fn test_scanner_large_numbers() {
    let mut scanner = Scanner::from_string("1000000000 9223372036854775807".to_string());
    let large_int: i64 = read(&mut scanner);
    let max_i64: i64 = read(&mut scanner);
    assert_eq!(large_int, 1000000000i64);
    assert_eq!(max_i64, 9223372036854775807i64);
}

#[test]
fn test_scanner_whitespace_handling() {
    let mut scanner = Scanner::from_string("  10   20\t30\n40  ".to_string());
    let a: i32 = read(&mut scanner);
    let b: i32 = read(&mut scanner);
    let c: i32 = read(&mut scanner);
    let d: i32 = read(&mut scanner);
    assert_eq!((a, b, c, d), (10, 20, 30, 40));
}

#[test]
fn test_scanner_mixed_types() {
    let mut scanner = Scanner::from_string("Alice 25 3.14".to_string());
    let name: String = read(&mut scanner);
    let age: i32 = read(&mut scanner);
    let score: f64 = read(&mut scanner);
    assert_eq!(name, "Alice");
    assert_eq!(age, 25);
    assert_eq!(score, 3.14);
}

#[test]
fn test_scanner_multiline_input() {
    let mut scanner = Scanner::from_string("\n\n42\n100 200\n\nhello\n".to_string());
    let first: i32 = read(&mut scanner);
    let second: i32 = read(&mut scanner);
    let third: i32 = read(&mut scanner);
    let word: String = read(&mut scanner);
    assert_eq!((first, second, third), (42, 100, 200));
    assert_eq!(word, "hello");
}

#[test]
fn test_scanner_competitive_programming_format() {
    let mut scanner = Scanner::from_string("5\n1 2 3 4 5\nhello world".to_string());
    let n: i32 = read(&mut scanner);
    assert_eq!(n, 5);
    let mut numbers = Vec::new();
    for _ in 0..n {
        numbers.push(read::<i32>(&mut scanner));
    }
    assert_eq!(numbers, vec![1, 2, 3, 4, 5]);
    let word1: String = read(&mut scanner);
    let word2: String = read(&mut scanner);
    assert_eq!(word1, "hello");
    assert_eq!(word2, "world");
}

#[test]
#[should_panic]
fn test_scanner_invalid_integer_parsing() {
    let mut scanner = Scanner::from_string("abc".to_string());
    let _: i32 = read(&mut scanner);
}

#[test]
#[should_panic]
fn test_scanner_empty_input() {
    let mut scanner = Scanner::from_string("".to_string());
    let _: i32 = read(&mut scanner);
}

#[test]
fn test_scanner_dump_integers() {
    let mut scanner = Scanner::from_string("5\n1 2 3 4 5".to_string());
    let n: usize = read(&mut scanner);
    let numbers: Vec<i32> = read_n(&mut scanner, n, "i32");
    assert_eq!(numbers, vec![1, 2, 3, 4, 5]);
}

#[test]
fn test_scanner_dump_strings() {
    let mut scanner = Scanner::from_string("4\nhello world rust programming".to_string());
    let n: usize = read(&mut scanner);
    let words: Vec<String> = read_n(&mut scanner, n, "String");
    assert_eq!(words, vec!["hello", "world", "rust", "programming"]);
}

#[test]
fn test_scanner_dump_zero_elements() {
    let mut scanner = Scanner::from_string("0\n".to_string());
    let n: usize = read(&mut scanner);
    let numbers: Vec<i32> = read_n(&mut scanner, n, "i32");
    assert!(numbers.is_empty());
}

#[test]
#[should_panic(expected = "Failed to parse 'abc' as type i32")]
fn test_scanner_dump_invalid_type_parsing() {
    let mut scanner = Scanner::from_string("3\n1 abc 3".to_string());
    let n: usize = read(&mut scanner);
    let _: Vec<i32> = read_n(&mut scanner, n, "i32");
}

#[test]
#[should_panic(expected = "Unexpected end of input while reading entry")]
fn test_scanner_dump_insufficient_input() {
    let mut scanner = Scanner::from_string("5\n1 2 3".to_string());
    let n: usize = read(&mut scanner);
    let _: Vec<i32> = read_n(&mut scanner, n, "i32");
}

#[test]
fn dump_of_too_many_reads_nothing() {
    let mut scanner = Scanner::from_reader("1 2");
    assert_eq!(scanner.dump(3), None);
    assert_eq!(scanner.dump(2), Some(vec!["1".to_string(), "2".to_string()]));
    assert_eq!(scanner.next(), None);
}

#[test]
fn test_scanner_sequential_reading() {
    let mut scanner = Scanner::from_string("1 2 3 4".to_string());
    let a: i32 = read(&mut scanner);
    let b: i32 = read(&mut scanner);
    let c: i32 = read(&mut scanner);
    let d: i32 = read(&mut scanner);
    assert_eq!((a, b, c, d), (1, 2, 3, 4));
}

#[test]
fn test_scanner_various_integer_types() {
    let mut scanner = Scanner::from_string("127 32767 2147483647 9223372036854775807 1000".to_string());
    let val_i8: i8 = read(&mut scanner);
    assert_eq!(val_i8, 127i8);
    let val_i16: i16 = read(&mut scanner);
    assert_eq!(val_i16, 32767i16);
    let val_i32: i32 = read(&mut scanner);
    assert_eq!(val_i32, 2147483647i32);
    let val_i64: i64 = read(&mut scanner);
    assert_eq!(val_i64, 9223372036854775807i64);
    let val_usize: usize = read(&mut scanner);
    assert_eq!(val_usize, 1000usize);
}

#[test]
fn test_scanner_competitive_programming_patterns() {
    let mut scanner = Scanner::from_string("3\n5 7\n1 3 5 7 9\n10 20".to_string());
    let t: i32 = read(&mut scanner);
    assert_eq!(t, 3);
    let n: i32 = read(&mut scanner);
    let m: i32 = read(&mut scanner);
    assert_eq!((n, m), (5, 7));
    let mut arr = Vec::new();
    for _ in 0..5 {
        arr.push(read::<i32>(&mut scanner));
    }
    assert_eq!(arr, vec![1, 3, 5, 7, 9]);
    let x: i32 = read(&mut scanner);
    let y: i32 = read(&mut scanner);
    assert_eq!((x, y), (10, 20));
}

#[test]
fn test_scanner_matrix_input() {
    let mut scanner = Scanner::from_string("3 3\n1 2 3\n4 5 6\n7 8 9".to_string());
    let rows: usize = read(&mut scanner);
    let cols: usize = read(&mut scanner);
    let mut matrix = Vec::new();
    for _ in 0..rows {
        let mut row = Vec::new();
        for _ in 0..cols {
            row.push(read::<i32>(&mut scanner));
        }
        matrix.push(row);
    }
    assert_eq!((rows, cols), (3, 3));
    assert_eq!(matrix, vec![vec![1, 2, 3], vec![4, 5, 6], vec![7, 8, 9]]);
}

#[test]
fn test_scanner_test_case_format() {
    let mut scanner = Scanner::from_string("2\n3\n1 2 3\n2\n10 20".to_string());
    let t: i32 = read(&mut scanner);
    assert_eq!(t, 2);
    let n1: i32 = read(&mut scanner);
    assert_eq!(n1, 3);
    let mut case1 = Vec::new();
    for _ in 0..n1 {
        case1.push(read::<i32>(&mut scanner));
    }
    assert_eq!(case1, vec![1, 2, 3]);
    let n2: i32 = read(&mut scanner);
    assert_eq!(n2, 2);
    let mut case2 = Vec::new();
    for _ in 0..n2 {
        case2.push(read::<i32>(&mut scanner));
    }
    assert_eq!(case2, vec![10, 20]);
}

#[test]
fn test_scanner_dump_floats() {
    let mut scanner = Scanner::from_string("3\n3.14 2.718 1.414".to_string());
    let n: usize = read(&mut scanner);
    let floats: Vec<f64> = read_n(&mut scanner, n, "f64");
    assert_eq!(floats, vec![3.14, 2.718, 1.414]);
}

#[test]
fn test_scanner_dump_multiline() {
    let mut scanner = Scanner::from_string("6\n10 20\n30 40\n50 60".to_string());
    let n: usize = read(&mut scanner);
    let numbers: Vec<i32> = read_n(&mut scanner, n, "i32");
    assert_eq!(numbers, vec![10, 20, 30, 40, 50, 60]);
}

#[test]
fn test_scanner_dump_competitive_programming_pattern() {
    let mut scanner = Scanner::from_string("2\n3\n100 200 300\n4\n10 20 30 40".to_string());
    let t: usize = read(&mut scanner);
    for _ in 0..t {
        let n: usize = read(&mut scanner);
        let arr: Vec<i32> = read_n(&mut scanner, n, "i32");
        if n == 3 {
            assert_eq!(arr, vec![100, 200, 300]);
        } else if n == 4 {
            assert_eq!(arr, vec![10, 20, 30, 40]);
        }
    }
}

#[test]
#[should_panic(expected = "Failed to parse '3.14' as type i32")]
fn test_scanner_dump_wrong_type() {
    let mut scanner = Scanner::from_string("2\n3.14 2.718".to_string());
    let n: usize = read(&mut scanner);
    let _: Vec<i32> = read_n(&mut scanner, n, "i32");
}

#[test]
fn test_scanner_dump_mixed_usage() {
    let mut scanner = Scanner::from_string("Alice 25\n3\n10 20 30\nhello".to_string());
    let name: String = read(&mut scanner);
    let age: i32 = read(&mut scanner);
    let n: usize = read(&mut scanner);
    let numbers: Vec<i32> = read_n(&mut scanner, n, "i32");
    let greeting: String = read(&mut scanner);
    assert_eq!(name, "Alice");
    assert_eq!(age, 25);
    assert_eq!(numbers, vec![10, 20, 30]);
    assert_eq!(greeting, "hello");
}

#[test]
fn white_space_matches_std_for_every_char() {
    for c in (0u32..=0x10FFFF).filter_map(char::from_u32) {
        assert_eq!(bundler_lib::filename_generator::is_space(c), c.is_whitespace(), "{:?}", c);
    }
}

#[test]
fn unicode_spaces_separate_tokens() {
    let mut scanner = Scanner::from_reader("a\u{3000}b\u{85}c");
    assert_eq!(scanner.dump(3), Some(vec!["a".to_string(), "b".to_string(), "c".to_string()]));
}
