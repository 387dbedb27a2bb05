use secure_send::ui::{direction_verb, parse_file_exists_choice, CodeCollector, CodeInputError, Direction, FileExistsChoice};

#[test]
fn file_exists_answers() {
    assert_eq!(parse_file_exists_choice("o\n"), FileExistsChoice::Overwrite);
    assert_eq!(parse_file_exists_choice("  OVERWRITE "), FileExistsChoice::Overwrite);
    assert_eq!(parse_file_exists_choice("R"), FileExistsChoice::Rename);
    assert_eq!(parse_file_exists_choice("Rename\r\n"), FileExistsChoice::Rename);
    assert_eq!(parse_file_exists_choice("c"), FileExistsChoice::Cancel);
    assert_eq!(parse_file_exists_choice(""), FileExistsChoice::Cancel);
    assert_eq!(parse_file_exists_choice("ov"), FileExistsChoice::Cancel);
    assert_eq!(parse_file_exists_choice("re name"), FileExistsChoice::Cancel);
}

#[test]
fn file_exists_answers_match_lowercasing() {
    for input in ["o", "O", "overWRITE", "r", "RENAME", "x", "Ö", "\u{212a}", "rEnAmE ", "\to\t"] {
        let expected = match input.trim().to_lowercase().as_str() {
            "o" | "overwrite" => FileExistsChoice::Overwrite,
            "r" | "rename" => FileExistsChoice::Rename,
            _ => FileExistsChoice::Cancel,
        };
        assert_eq!(parse_file_exists_choice(input), expected, "input {input:?}");
    }
}

#[test]
fn progress_verbs() {
    assert_eq!(direction_verb(Direction::Send), "Sending");
    assert_eq!(direction_verb(Direction::Receive), "Receiving");
}

#[test]
fn pasted_code_is_gathered_across_lines() {
    let mut c = CodeCollector::new();
    assert!(!c.on_line(""));
    assert!(!c.on_line("   "));
    assert!(!c.on_line("  abc "));
    assert!(!c.on_line("def\r"));
    assert!(c.on_line(" "));
    assert_eq!(c.finish().unwrap(), "abcdef");
}

#[test]
fn blank_paste_is_refused() {
    let mut c = CodeCollector::new();
    assert!(!c.on_line("\t"));
    assert_eq!(c.finish(), Err(CodeInputError::NoCodeEntered));
    let mut d = CodeCollector::new();
    assert!(!d.on_line("xyz"));
    assert_eq!(d.finish().unwrap(), "xyz");
}
