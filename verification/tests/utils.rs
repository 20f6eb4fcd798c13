use text_image_generator::utils::{
    attrs_owned_to_tuple, distinct_chars, Family, InternalAttrsOwned, Stretch, StringUsefulUtils, Style,
};

#[test]
fn test_string_dedup() {
    let data = String::from("le chat et le chien\nvoilà l'été\n");
    let result = data.dedup();
    assert_eq!(result, "\n 'acehilnotvàé");
}

#[test]
fn dedup_keeps_each_character_once_in_rising_order() {
    assert_eq!("banana".dedup(), "abn");
    assert_eq!("".dedup(), "");
    assert_eq!("zzz".dedup(), "z");
    assert_eq!("這是一個測試這是".dedup(), "一個是測試這");
    assert_eq!("a\u{10FFFF}\u{0}b".dedup(), "\u{0}ab\u{10FFFF}");
}

#[test]
fn dedup_to_vec_gives_each_character_as_a_string() {
    assert_eq!("hello".dedup_to_vec(), vec!["e", "h", "l", "o"]);
    assert_eq!(String::from("測試 a").dedup_to_vec(), vec![" ", "a", "測", "試"]);
    assert_eq!("".dedup_to_vec(), Vec::<String>::new());
}

#[test]
fn distinct_chars_sorts_by_code_point() {
    assert_eq!(distinct_chars("cbaABC"), vec!['A', 'B', 'C', 'a', 'b', 'c']);
}

#[test]
fn attributes_are_written_down_as_a_name_and_three_numbers() {
    let attrs = InternalAttrsOwned::new(
        Family::Name(String::from("SimSun")),
        Style::Italic,
        700,
        Stretch::Condensed,
    );
    assert_eq!(attrs.to_tuple(), (String::from("SimSun"), 1, 700, 3));
    assert_eq!(attrs_owned_to_tuple(&attrs), (String::from("SimSun"), 1, 700, 3));
    let families = [
        (Family::Serif, "FamilySerif"),
        (Family::SansSerif, "FamilySansSerif"),
        (Family::Cursive, "FamilyCursive"),
        (Family::Fantasy, "FamilyFantasy"),
        (Family::Monospace, "FamilyMonospace"),
    ];
    for (family, name) in families {
        let attrs = InternalAttrsOwned::new(family, Style::Normal, 400, Stretch::Normal);
        assert_eq!(attrs.to_tuple(), (String::from(name), 0, 400, 5));
    }
}

#[test]
fn slants_and_widths_have_their_numbers() {
    let styles = [Style::Normal, Style::Italic, Style::Oblique];
    let stretches = [
        Stretch::UltraCondensed,
        Stretch::ExtraCondensed,
        Stretch::Condensed,
        Stretch::SemiCondensed,
        Stretch::Normal,
        Stretch::SemiExpanded,
        Stretch::Expanded,
        Stretch::ExtraExpanded,
        Stretch::UltraExpanded,
    ];
    for (number, style) in styles.iter().enumerate() {
        for (wide, stretch) in stretches.iter().enumerate() {
            let attrs = InternalAttrsOwned::new(Family::Serif, *style, 1, *stretch);
            let written = attrs.to_tuple();
            assert_eq!((written.1, written.3), (number as u16, wide as u16 + 1));
            assert_eq!(InternalAttrsOwned::from_tuple(written), attrs);
        }
    }
}

#[test]
fn attributes_are_read_as_they_were_written() {
    let read = InternalAttrsOwned::from_tuple((String::from("Noto Sans"), 2, 65535, 9));
    assert_eq!(
        read,
        InternalAttrsOwned::new(
            Family::Name(String::from("Noto Sans")),
            Style::Oblique,
            65535,
            Stretch::UltraExpanded,
        )
    );
    let read = InternalAttrsOwned::from_tuple((String::from("FamilyCursive"), 0, 0, 1));
    assert_eq!(
        read,
        InternalAttrsOwned::new(Family::Cursive, Style::Normal, 0, Stretch::UltraCondensed)
    );
    let read = InternalAttrsOwned::from_tuple((String::from("familyserif"), 0, 0, 1));
    assert_eq!(read.family, Family::Name(String::from("familyserif")));
    let read = InternalAttrsOwned::from_tuple((String::new(), 0, 0, 1));
    assert_eq!(read.family, Family::Name(String::new()));
}
