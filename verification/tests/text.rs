use pw::text::chars_of;
use pw::text::string_of;

#[test]
fn chars_of_keeps_every_character_in_order() {
    assert_eq!(chars_of(""), Vec::<char>::new());
    assert_eq!(chars_of("-lu"), vec!['-', 'l', 'u']);
    assert_eq!(chars_of("a\u{e9}\u{1f600}z"), vec!['a', '\u{e9}', '\u{1f600}', 'z']);
}

#[test]
fn string_of_keeps_every_character_in_order() {
    assert_eq!(string_of(&Vec::new()), "");
    assert_eq!(string_of(&vec!['p', 'w']), "pw");
    assert_eq!(string_of(&vec!['a', '\u{e9}', '\u{1f600}', 'z']), "a\u{e9}\u{1f600}z");
}

#[test]
fn string_of_undoes_chars_of() {
    for text in ["", "~!@#$%^&*()_-+=:;<,>.?/", "Invalid length \u{663} (max 65535)"] {
        assert_eq!(string_of(&chars_of(text)), text);
    }
}
