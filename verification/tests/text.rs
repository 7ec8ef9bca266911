use route_summary::text::{char_is_space, chars_of, contains_char, split_fields, trim_slice};

fn chars(s: &str) -> Vec<char> {
    s.chars().collect()
}

fn text(chars: &[char]) -> String {
    chars.iter().collect()
}

const SAMPLES: [&str; 16] = [
    "",
    ".",
    "..",
    "a",
    "a.b",
    ".a",
    "a.",
    "1.2.3.4",
    "1..2",
    "10.0.0.0/24",
    "/",
    "a/b/c",
    " 10.0.0.0 / 24 ",
    "\t1.2.3.4\r\n",
    "\u{a0}x\u{3000}",
    "caf\u{e9}.\u{1f600}.z",
];

#[test]
fn chars_of_gives_every_character_in_order() {
    for s in SAMPLES {
        assert_eq!(chars_of(s), chars(s));
    }
}

#[test]
fn contains_char_agrees_with_str_contains() {
    for s in SAMPLES {
        for c in ['.', '/', 'a', ' '] {
            assert_eq!(contains_char(&chars(s), c), s.contains(c), "{:?} {:?}", s, c);
        }
    }
}

#[test]
fn split_fields_agrees_with_str_split() {
    for s in SAMPLES {
        for sep in ['.', '/'] {
            let cs = chars(s);
            let fields: Vec<String> = split_fields(&cs, sep).into_iter().map(text).collect();
            let expected: Vec<String> = s.split(sep).map(String::from).collect();
            assert_eq!(fields, expected, "{:?} {:?}", s, sep);
        }
    }
}

#[test]
fn split_fields_of_empty_text_is_one_empty_field() {
    let cs = chars("");
    let fields = split_fields(&cs, '.');
    assert_eq!(fields.len(), 1);
    assert!(fields[0].is_empty());
}

#[test]
fn split_fields_keeps_empty_fields() {
    let cs = chars(".a..");
    let fields: Vec<String> = split_fields(&cs, '.').into_iter().map(text).collect();
    assert_eq!(fields, vec!["", "a", "", ""]);
}

#[test]
fn trim_slice_agrees_with_str_trim() {
    for s in SAMPLES {
        assert_eq!(text(trim_slice(&chars(s))), s.trim(), "{:?}", s);
    }
    for s in ["   ", " a b ", "\n\n", "x", "\u{2003}y\u{2028}", "\u{200b}z\u{200b}"] {
        assert_eq!(text(trim_slice(&chars(s))), s.trim(), "{:?}", s);
    }
}

#[test]
fn char_is_space_agrees_with_char_is_whitespace() {
    for code in 0u32..=0x10_ffff {
        if let Some(c) = char::from_u32(code) {
            assert_eq!(char_is_space(c), c.is_whitespace(), "U+{:04X}", code);
        }
    }
}
