use tax_shell::reader::{tokenize, ParsedCommand};
use tax_shell::text::{chars_of, join, lower_ascii, separates};

fn strings(words: &[&str]) -> Vec<String> {
    words.iter().map(|w| w.to_string()).collect()
}

#[test]
fn words_are_split_on_single_spaces() {
    assert_eq!(tokenize("taxset 18.5"), strings(&["taxset", "18.5"]));
    assert_eq!(tokenize("a b c"), strings(&["a", "b", "c"]));
}

#[test]
fn runs_of_separators_are_collapsed() {
    assert_eq!(tokenize("  taxset \t  18.5  \r\n"), strings(&["taxset", "18.5"]));
    assert_eq!(tokenize("tax\u{a0}\u{3000}set"), strings(&["tax", "set"]));
}

#[test]
fn a_line_without_a_word_has_no_tokens() {
    assert_eq!(tokenize(""), Vec::<String>::new());
    assert_eq!(tokenize("   \t\n"), Vec::<String>::new());
}

#[test]
fn tokens_are_lower_cased() {
    assert_eq!(tokenize("TaxSet ABC"), strings(&["taxset", "abc"]));
    assert_eq!(tokenize("HELP"), strings(&["help"]));
    assert_eq!(tokenize("ÄRGER"), strings(&["ärger"]));
}

#[test]
fn the_first_token_is_the_name_and_the_rest_are_arguments() {
    let command = ParsedCommand::parse("TAXSET 18.5 extra\n").unwrap();
    assert_eq!(command.name, "taxset");
    assert_eq!(command.raw_args, strings(&["18.5", "extra"]));
    let bare = ParsedCommand::parse("tax").unwrap();
    assert_eq!(bare, ParsedCommand { name: "tax".to_string(), raw_args: vec![] });
}

#[test]
fn an_empty_line_is_no_command() {
    assert_eq!(ParsedCommand::parse(""), None);
    assert_eq!(ParsedCommand::parse("\n"), None);
    assert_eq!(ParsedCommand::parse(" \t "), None);
}

#[test]
fn the_separators_are_the_white_space_characters() {
    for c in ['\t', '\n', '\u{b}', '\u{c}', '\r', ' ', '\u{85}', '\u{a0}', '\u{1680}', '\u{2000}', '\u{200a}', '\u{2028}', '\u{2029}', '\u{202f}', '\u{205f}', '\u{3000}'] {
        assert!(separates(c), "{:?}", c);
        assert!(c.is_whitespace());
    }
    for c in ['a', '0', '.', '-', '\u{8}', '\u{e}', '\u{200b}', '\u{feff}', '\u{180e}'] {
        assert!(!separates(c), "{:?}", c);
        assert!(!c.is_whitespace());
    }
}

#[test]
fn separators_agree_with_the_standard_library_on_every_character() {
    let mut code: u32 = 0;
    while code <= 0x10ffff {
        if let Some(c) = char::from_u32(code) {
            assert_eq!(separates(c), c.is_whitespace(), "{:x}", code);
        }
        code += 1;
    }
}

#[test]
fn text_helpers_cut_and_join() {
    assert_eq!(chars_of("héllo"), vec!['h', 'é', 'l', 'l', 'o']);
    assert_eq!(chars_of(""), Vec::<char>::new());
    assert_eq!(join(&strings(&["a", "b", "c"]), ", "), "a, b, c");
    assert_eq!(join(&strings(&["a"]), ", "), "a");
    assert_eq!(join(&strings(&[]), ", "), "");
}

#[test]
fn ascii_words_fold_as_the_standard_library_folds_them() {
    let mut code: u32 = 0;
    while code < 0x80 {
        let c = char::from_u32(code).unwrap();
        assert_eq!(lower_ascii(c), c.to_ascii_lowercase());
        if !c.is_whitespace() {
            let word = format!("x{}Y{}", c, c);
            assert_eq!(tokenize(&word), vec![word.to_lowercase()], "{:x}", code);
        }
        code += 1;
    }
    assert_eq!(tokenize("Hello, WORLD! 18.5E3"), strings(&["hello,", "world!", "18.5e3"]));
}

#[test]
fn other_words_fold_as_unicode_defines() {
    for word in ["ÀB", "ΣΑΣ", "\u{212a}elvin", "İstanbul", "ǅ", "Ω", "ÉXIT", "ß", "日本語"] {
        assert_eq!(tokenize(word), vec![word.to_lowercase()], "{}", word);
    }
    assert_eq!(tokenize("ΣΑΣ TAX"), strings(&["σας", "tax"]));
    assert_eq!(tokenize("\u{212a}"), strings(&["k"]));
}

#[test]
fn a_word_is_folded_where_it_stands() {
    assert_eq!(tokenize("ab CD+ Éf"), strings(&["ab", "cd+", "éf"]));
    assert_eq!(lower_ascii('Z'), 'z');
    assert_eq!(lower_ascii('A'), 'a');
    assert_eq!(lower_ascii('@'), '@');
    assert_eq!(lower_ascii('['), '[');
    assert_eq!(lower_ascii('é'), 'é');
    assert_eq!(lower_ascii('É'), 'É');
}
