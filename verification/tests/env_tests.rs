use r_env::env::{entry_bounds, parse_dotenv_string, parse_line, DotenvFile};
use r_env::text::to_chars;
use r_env::error::{Error, ErrorKind};
use r_env::source::ReadOutcome;

fn pairs(file: &DotenvFile) -> Vec<(&str, &str)> {
    file.get_inner_map().iter().map(|(k, v)| (k.as_str(), v.as_str())).collect()
}

fn entry(key: &str, value: &str) -> Option<(String, String)> {
    Some((key.to_string(), value.to_string()))
}

#[test]
fn end_to_end_example() {
    let file = parse_dotenv_string("A=1\nB = 2 \n# comment\nBAD_LINE\nA=3\n");
    assert_eq!(pairs(&file), vec![("A", "3"), ("B", "2")]);
    assert_eq!(file.get("A"), Some(&"3".to_string()));
    assert_eq!(file.get("B"), Some(&"2".to_string()));
    assert_eq!(file.get("BAD_LINE"), None);
}

#[test]
fn empty_text_gives_no_variables() {
    assert!(parse_dotenv_string("").get_inner_map().is_empty());
    assert!(parse_dotenv_string("\n\n\n").get_inner_map().is_empty());
    assert!(parse_dotenv_string("   \n\t\n").get_inner_map().is_empty());
}

#[test]
fn line_is_split_at_its_only_separator_and_trimmed() {
    assert_eq!(parse_line("KEY=VALUE"), entry("KEY", "VALUE"));
    assert_eq!(parse_line("  KEY  =  VALUE  "), entry("KEY", "VALUE"));
    assert_eq!(parse_line("\tK E Y = V A L\r"), entry("K E Y", "V A L"));
    assert_eq!(parse_line("KEY="), entry("KEY", ""));
    assert_eq!(parse_line("KEY =   "), entry("KEY", ""));
    assert_eq!(parse_line("\u{3000}cl\u{e9}\u{a0}=\u{2003}\u{1F600}\u{2028}"), entry("cl\u{e9}", "\u{1F600}"));
}

#[test]
fn line_with_nothing_before_the_separator_gives_nothing() {
    assert_eq!(parse_line("=VALUE"), None);
    assert_eq!(parse_line("="), None);
    assert_eq!(parse_line(" = "), None);
    assert_eq!(parse_line("  \t = VALUE"), None);
    assert_eq!(parse_line("=#"), None);
    assert_eq!(parse_line("\u{3000}=v"), None);
    let with = parse_dotenv_string("A=1\n=2\n = 3\nB=4\n=");
    let without = parse_dotenv_string("A=1\nB=4");
    assert_eq!(with, without);
    assert_eq!(pairs(&with), vec![("A", "1"), ("B", "4")]);
    assert_eq!(with.get(""), None);
}

#[test]
fn no_key_is_empty() {
    let texts = ["=v", "=", "A=1\n=x\nB=2", " = \n\t=\t\n", "=a=b", "#=1\n=#"];
    for text in texts {
        let file = parse_dotenv_string(text);
        for (key, _) in file.get_inner_map() {
            assert!(!key.is_empty(), "{:?}", text);
        }
        for line in file.dump_lines() {
            assert!(!line.starts_with('='), "{:?}", text);
        }
    }
}

#[test]
fn line_with_no_separator_or_several_gives_nothing() {
    assert_eq!(parse_line("BAD_LINE"), None);
    assert_eq!(parse_line("A=B=C"), None);
    assert_eq!(parse_line("A=="), None);
    assert_eq!(parse_line("==A"), None);
    assert_eq!(parse_line("=="), None);
    assert_eq!(parse_line("URL=http://x/?a=b"), None);
    let with = parse_dotenv_string("A=1\nB=2=3\nNOTHING\nC=4");
    let without = parse_dotenv_string("A=1\nC=4");
    assert_eq!(with, without);
    assert_eq!(pairs(&with), vec![("A", "1"), ("C", "4")]);
}

#[test]
fn blank_line_or_comment_gives_nothing() {
    assert_eq!(parse_line(""), None);
    assert_eq!(parse_line("   "), None);
    assert_eq!(parse_line("\t\r"), None);
    assert_eq!(parse_line("#"), None);
    assert_eq!(parse_line("# A=1"), None);
    assert_eq!(parse_line("#A=1"), None);
    assert_eq!(parse_line("   #A=1"), None);
    let with = parse_dotenv_string("\nA=1\n   \n#B=2\n  # C=3\nD=4\n\n");
    let without = parse_dotenv_string("A=1\nD=4");
    assert_eq!(with, without);
    assert_eq!(pairs(&with), vec![("A", "1"), ("D", "4")]);
}

#[test]
fn hash_is_a_comment_only_at_the_start() {
    assert_eq!(parse_line("A=1 # one"), entry("A", "1 # one"));
    assert_eq!(parse_line("A#=1"), entry("A#", "1"));
    assert_eq!(parse_line("A=#"), entry("A", "#"));
}

#[test]
fn last_occurrence_of_a_key_wins() {
    let file = parse_dotenv_string("A=1\nB=x\nA=2\n A = 3 \nB=y");
    assert_eq!(pairs(&file), vec![("A", "3"), ("B", "y")]);
    let skipped = parse_dotenv_string("A=1\nA=2=3\n#A=4");
    assert_eq!(pairs(&skipped), vec![("A", "1")]);
}

#[test]
fn lines_end_at_line_feeds_only() {
    let file = parse_dotenv_string("A=1\r\nB=2\rC=3\n");
    assert_eq!(pairs(&file), vec![("A", "1")]);
    let no_final_newline = parse_dotenv_string("A=1\nB=2");
    assert_eq!(pairs(&no_final_newline), vec![("A", "1"), ("B", "2")]);
}

#[test]
fn variables_come_in_the_order_of_their_keys() {
    let file = parse_dotenv_string("b=2\nB=1\n0=0\nab=4\na=3\n\u{e9}=6\nz=5\n");
    let listed = pairs(&file);
    assert_eq!(
        listed,
        vec![("0", "0"), ("B", "1"), ("a", "3"), ("ab", "4"), ("b", "2"), ("z", "5"), ("\u{e9}", "6")]
    );
    let mut sorted = listed.clone();
    sorted.sort();
    assert_eq!(listed, sorted);
}

#[test]
fn dump_shows_each_variable_on_a_line() {
    let file = parse_dotenv_string("B = 2 \nA=1\n# comment\nC=\nA=3\n");
    assert_eq!(file.dump_lines(), vec!["A=3", "B=2", "C="]);
    assert!(DotenvFile::new().dump_lines().is_empty());
}

#[test]
fn dumped_lines_read_back_to_the_same_variables() {
    let texts = [
        "",
        "A=1\nB = 2 \n# comment\nBAD_LINE\nA=3\n",
        "  spaced key  =  spaced value  \n=\n=v\nk=\n",
        "x=#\n#=x\nb=1\na=2\r\n",
        "a b=c d\n-=-\n",
        "\u{e9}=\u{1F600}\n\u{3000}w\u{3000}=\u{a0}\n",
    ];
    for text in texts {
        let file = parse_dotenv_string(text);
        let dumped = file.dump_lines().join("\n");
        assert_eq!(parse_dotenv_string(&dumped), file, "{:?}", text);
        for line in file.dump_lines() {
            let (key, value) = parse_line(&line).unwrap();
            assert_eq!(format!("{}={}", key, value), line);
            assert_eq!(file.get(&key), Some(&value));
        }
    }
}

#[test]
fn valid_line_round_trips_with_whitespace_trimmed() {
    for (key, value) in [("KEY", "VALUE"), (" k ", "\tv\t"), ("k", ""), ("a b", "c  d"), (" k", "#")] {
        let line = format!("{}={}", key, value);
        let parsed = parse_line(&line).unwrap();
        assert_eq!(parsed, (key.trim().to_string(), value.trim().to_string()));
        let file = parse_dotenv_string(&line);
        assert_eq!(file.dump_lines(), vec![format!("{}={}", key.trim(), value.trim())]);
    }
}

#[test]
fn insert_sets_or_replaces() {
    let mut file = DotenvFile::new();
    assert_eq!(file.get("a"), None);
    assert!(file.insert("b".to_string(), "1".to_string()));
    assert!(file.insert("a".to_string(), "2".to_string()));
    assert!(file.insert("c".to_string(), "3".to_string()));
    assert_eq!(pairs(&file), vec![("a", "2"), ("b", "1"), ("c", "3")]);
    assert!(file.insert("b".to_string(), "4".to_string()));
    assert_eq!(pairs(&file), vec![("a", "2"), ("b", "4"), ("c", "3")]);
    assert_eq!(file.get("b"), Some(&"4".to_string()));
    assert_eq!(file.get("bb"), None);
    assert_eq!(file.get(""), None);
}

#[test]
fn insert_refuses_an_empty_key() {
    let mut file = DotenvFile::new();
    assert!(!file.insert(String::new(), "v".to_string()));
    assert!(file.get_inner_map().is_empty());
    assert!(file.insert("a".to_string(), String::new()));
    assert!(!file.insert(String::new(), String::new()));
    assert_eq!(pairs(&file), vec![("a", "")]);
    assert_eq!(file.get(""), None);
    assert!(file.insert(" ".to_string(), "blank but not empty".to_string()));
    assert_eq!(pairs(&file), vec![(" ", "blank but not empty"), ("a", "")]);
}

#[test]
fn configure_parses_the_text_that_was_read() {
    let text = ReadOutcome::Text("A=1\nB=2".to_string());
    for (use_stdin, path) in [(true, None), (false, None), (false, Some("x.env")), (true, Some("x.env"))] {
        let file = DotenvFile::configure(use_stdin, path.map(|p| p.to_string()), text.clone()).unwrap();
        assert_eq!(pairs(&file), vec![("A", "1"), ("B", "2")]);
    }
    let empty = DotenvFile::configure(true, None, ReadOutcome::Text(String::new())).unwrap();
    assert!(empty.get_inner_map().is_empty());
}

#[test]
fn missing_default_file_gives_no_variables() {
    let missing = ReadOutcome::NotFound("No such file or directory (os error 2)".to_string());
    let file = DotenvFile::configure(false, None, missing.clone()).unwrap();
    assert!(file.get_inner_map().is_empty());
    let empty_path = DotenvFile::configure(false, Some(String::new()), missing).unwrap();
    assert!(empty_path.get_inner_map().is_empty());
}

#[test]
fn missing_explicit_file_is_an_error() {
    let missing = ReadOutcome::NotFound("No such file or directory (os error 2)".to_string());
    let error = DotenvFile::configure(false, Some("missing.env".to_string()), missing).unwrap_err();
    assert_eq!(error, Error::Io("No such file or directory (os error 2)".to_string()));
    assert_eq!(error.kind(), ErrorKind::Io);
    assert_eq!(error.message(), "No such file or directory (os error 2)");
}

#[test]
fn failed_read_is_an_error_for_every_source() {
    let failed = ReadOutcome::Failed("Is a directory (os error 21)".to_string());
    for (use_stdin, path) in [(true, None), (false, None), (false, Some("dir"))] {
        let error =
            DotenvFile::configure(use_stdin, path.map(|p| p.to_string()), failed.clone()).unwrap_err();
        assert_eq!(error, Error::Io("Is a directory (os error 21)".to_string()));
    }
}

#[test]
fn entry_bounds_are_those_of_key_and_value() {
    let chars = to_chars("x\n  KEY = some value \n#c\nA=B=C\n=");
    assert_eq!(entry_bounds(&chars, 0, 1), None);
    assert_eq!(entry_bounds(&chars, 2, 21), Some((4, 7, 10, 20)));
    assert_eq!(entry_bounds(&chars, 4, 9), Some((4, 7, 9, 9)));
    assert_eq!(entry_bounds(&chars, 22, 24), None);
    assert_eq!(entry_bounds(&chars, 25, 30), None);
    assert_eq!(entry_bounds(&chars, 25, 28), Some((25, 26, 27, 28)));
    assert_eq!(entry_bounds(&chars, 31, 32), None);
    assert_eq!(entry_bounds(&chars, 32, 32), None);
    assert_eq!(entry_bounds(&chars, 7, 21), None);
    assert_eq!(entry_bounds(&chars, 8, 21), None);
}
