use strapper::text::{chars_of, push_chars, split_chars, string_of};

fn pieces(text: &str, sep: char) -> Vec<String> {
    let chars = chars_of(text);
    split_chars(&chars, 0, chars.len(), sep).iter().map(|p| p.iter().collect()).collect()
}

#[test]
fn chars_of_gives_the_characters() {
    assert_eq!(chars_of("aé\u{1F600}"), vec!['a', 'é', '\u{1F600}']);
    assert!(chars_of("").is_empty());
}

#[test]
fn string_of_takes_a_range() {
    let chars = chars_of("hello world");
    assert_eq!(string_of(&chars, 0, 5), "hello");
    assert_eq!(string_of(&chars, 6, 11), "world");
    assert_eq!(string_of(&chars, 3, 3), "");
    let mut out = "say ".to_string();
    push_chars(&mut out, &chars, 0, 5);
    assert_eq!(out, "say hello");
}

#[test]
fn split_gives_the_pieces_between_separators() {
    assert_eq!(pieces("a@b@c", '@'), vec!["a", "b", "c"]);
    assert_eq!(pieces("abc", '@'), vec!["abc"]);
    assert_eq!(pieces("", '@'), vec![""]);
    assert_eq!(pieces("@", '@'), vec!["", ""]);
    assert_eq!(pieces("@@a@", '@'), vec!["", "", "a", ""]);
    let chars = chars_of("x:1:2:y");
    let inner: Vec<String> = split_chars(&chars, 2, 5, ':').iter().map(|p| p.iter().collect()).collect();
    assert_eq!(inner, vec!["1", "2"]);
}

#[test]
fn split_agrees_with_str_split() {
    for text in ["", "a", "::", "1:2:3", ":a:", "a::b", "é:ü"] {
        let expected: Vec<String> = text.split(':').map(|p| p.to_string()).collect();
        assert_eq!(pieces(text, ':'), expected);
    }
}
