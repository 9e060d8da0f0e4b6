use grimoire::text::chars_of;
use grimoire::text::string_of;

#[test]
fn chars_of_gives_the_characters() {
    assert_eq!(chars_of("aé😀"), vec!['a', 'é', '😀']);
    assert_eq!(chars_of(""), Vec::<char>::new());
}

#[test]
fn string_of_builds_the_range() {
    let chars = ['h', 'é', 'l', 'l', 'o'];
    assert_eq!(string_of(&chars, 0, 5), "héllo");
    assert_eq!(string_of(&chars, 1, 3), "él");
    assert_eq!(string_of(&chars, 2, 2), "");
    assert_eq!(string_of(&chars, 5, 5), "");
}
