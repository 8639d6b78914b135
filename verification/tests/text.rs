use gateway::text::{
    chars_of, contains_run, decimal_chars, has_char, is_space, join_chars, lower_char,
    lower_chars, position_of, push_chars, slice_chars, split_chars, trim, trim_chars,
};

fn cs(s: &str) -> Vec<char> {
    s.chars().collect()
}

fn st(v: &[char]) -> String {
    v.iter().collect()
}

#[test]
fn chars_of_keeps_every_character_in_order() {
    assert_eq!(chars_of("aé𝄞z"), vec!['a', 'é', '𝄞', 'z']);
    assert_eq!(chars_of(""), Vec::<char>::new());
}

#[test]
fn trim_drops_white_space_at_both_ends_only() {
    assert_eq!(trim("  a b \t\n"), "a b");
    assert_eq!(trim("\u{2003}x\u{00a0}"), "x");
    assert_eq!(trim("   "), "");
    assert_eq!(trim(""), "");
    assert_eq!(trim("plain"), "plain");
}

#[test]
fn trim_agrees_with_the_standard_library() {
    for s in ["", " ", " a", "a ", " a ", "\ta\u{3000}b\r\n", "\u{feff}a", "a\u{200b}"] {
        assert_eq!(trim(s), s.trim());
    }
}

#[test]
fn trimming_twice_changes_nothing_more() {
    for s in ["  x y  ", "\n", "z"] {
        let once = trim(s);
        assert_eq!(trim(&once), once);
    }
}

#[test]
fn trim_chars_matches_trim() {
    assert_eq!(st(&trim_chars(&cs(" \t keep-alive  "))), "keep-alive");
}

#[test]
fn lower_char_changes_ascii_capitals_only() {
    assert_eq!(lower_char('A'), 'a');
    assert_eq!(lower_char('Z'), 'z');
    assert_eq!(lower_char('a'), 'a');
    assert_eq!(lower_char('@'), '@');
    assert_eq!(lower_char('['), '[');
    assert_eq!(lower_char('É'), 'É');
}

#[test]
fn lower_chars_agrees_with_to_ascii_lowercase() {
    for s in ["Keep-Alive", "X-FOO_bar9", "ÄÖ-Te", ""] {
        assert_eq!(st(&lower_chars(&cs(s))), s.to_ascii_lowercase());
    }
}

#[test]
fn position_of_finds_the_first_occurrence() {
    assert_eq!(position_of(&cs("a=b=c"), '='), 1);
    assert_eq!(position_of(&cs("abc"), '='), 3);
    assert_eq!(position_of(&cs(""), '='), 0);
    assert!(has_char(&cs("::1"), ':'));
    assert!(!has_char(&cs("localhost"), ':'));
}

#[test]
fn split_chars_gives_one_more_piece_than_separators() {
    let parts = split_chars(&cs("a,b,,c"), ',');
    let texts: Vec<String> = parts.iter().map(|p| st(p)).collect();
    assert_eq!(texts, vec!["a", "b", "", "c"]);
    assert_eq!(split_chars(&cs(""), ',').len(), 1);
    assert_eq!(split_chars(&cs(","), ',').len(), 2);
}

#[test]
fn split_chars_agrees_with_the_standard_library() {
    for s in ["", ",", "a", "a,", ",a", "close, X-Foo ,, te"] {
        let ours: Vec<String> = split_chars(&cs(s), ',').iter().map(|p| st(p)).collect();
        let theirs: Vec<String> = s.split(',').map(|p| p.to_string()).collect();
        assert_eq!(ours, theirs);
    }
}

#[test]
fn join_chars_puts_the_separator_between_neighbours() {
    let parts = vec![cs("SID=abc"), cs("lang=en"), cs("x=")];
    assert_eq!(st(&join_chars(&parts, &cs("; "))), "SID=abc; lang=en; x=");
    assert_eq!(st(&join_chars(&vec![cs("only")], &cs("; "))), "only");
    assert_eq!(st(&join_chars(&Vec::new(), &cs("; "))), "");
}

#[test]
fn contains_run_finds_adjacent_characters() {
    assert!(contains_run(&cs("Ok."), &cs("Ok")));
    assert!(contains_run(&cs("Fails, not Ok"), &cs("Ok")));
    assert!(!contains_run(&cs("O k"), &cs("Ok")));
    assert!(!contains_run(&cs("ok"), &cs("Ok")));
    assert!(!contains_run(&cs("O"), &cs("Ok")));
    assert!(contains_run(&cs(""), &cs("")));
    assert!(contains_run(&cs("abc"), &cs("")));
}

#[test]
fn decimal_chars_writes_every_port() {
    assert_eq!(st(&decimal_chars(0)), "0");
    assert_eq!(st(&decimal_chars(7)), "7");
    assert_eq!(st(&decimal_chars(10)), "10");
    assert_eq!(st(&decimal_chars(80)), "80");
    assert_eq!(st(&decimal_chars(8080)), "8080");
    assert_eq!(st(&decimal_chars(10000)), "10000");
    assert_eq!(st(&decimal_chars(65535)), "65535");
    for n in [1u16, 9, 99, 100, 101, 999, 1000, 9091, 40004, 65534] {
        assert_eq!(st(&decimal_chars(n)), n.to_string());
    }
}

#[test]
fn slice_and_push_chars_copy_ranges() {
    let v = cs("abcdef");
    assert_eq!(st(&slice_chars(&v, 1, 4)), "bcd");
    assert_eq!(st(&slice_chars(&v, 3, 3)), "");
    let mut head = cs("ab");
    push_chars(&mut head, &cs("cd"));
    assert_eq!(st(&head), "abcd");
}

#[test]
fn is_space_agrees_with_the_standard_library_on_every_character() {
    let mut spaces = 0;
    for code in 0..=0x10ffffu32 {
        if let Some(c) = char::from_u32(code) {
            assert_eq!(is_space(c), c.is_whitespace(), "U+{code:04X}");
            if is_space(c) {
                spaces += 1;
            }
        }
    }
    assert_eq!(spaces, 25);
}

#[test]
fn lower_char_agrees_with_the_standard_library_on_every_character() {
    for code in 0..=0x10ffffu32 {
        if let Some(c) = char::from_u32(code) {
            assert_eq!(lower_char(c), c.to_ascii_lowercase(), "U+{code:04X}");
        }
    }
}

#[test]
fn trimming_a_blank_before_a_letter_gives_the_letter() {
    assert_eq!(trim(" a"), "a");
    assert_eq!(trim("\u{3000}a\u{2028}"), "a");
    assert_eq!(trim("\u{200b}a"), "\u{200b}a");
}
