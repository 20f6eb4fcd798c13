use rand::rngs::StdRng;
use rand::SeedableRng;
use text_image_generator::corpus::{draw_shape, lay_out, Insertion, Slot};
use text_image_generator::utils::split_chars;

#[test]
fn a_text_without_a_symbol_is_its_entries() {
    assert_eq!(
        lay_out(&vec![7, 7, 2], None),
        vec![Slot::Entry(7), Slot::Entry(7), Slot::Entry(2)]
    );
    assert_eq!(lay_out(&vec![], None), vec![]);
}

#[test]
fn the_symbol_stands_before_the_entry_that_its_number_names() {
    let picks = vec![10, 11, 12];
    assert_eq!(
        lay_out(&picks, Some(Insertion { at: 2, symbol: 4 })),
        vec![Slot::Entry(10), Slot::Symbol(4), Slot::Entry(11), Slot::Entry(12)]
    );
    assert_eq!(
        lay_out(&picks, Some(Insertion { at: 1, symbol: 0 })),
        vec![Slot::Symbol(0), Slot::Entry(10), Slot::Entry(11), Slot::Entry(12)]
    );
    assert_eq!(
        lay_out(&picks, Some(Insertion { at: 3, symbol: 9 })),
        vec![Slot::Entry(10), Slot::Entry(11), Slot::Symbol(9), Slot::Entry(12)]
    );
}

#[test]
fn a_symbol_beyond_the_entries_is_left_out() {
    let picks = vec![10, 11, 12];
    let plain = vec![Slot::Entry(10), Slot::Entry(11), Slot::Entry(12)];
    assert_eq!(lay_out(&picks, Some(Insertion { at: 0, symbol: 4 })), plain);
    assert_eq!(lay_out(&picks, Some(Insertion { at: 4, symbol: 4 })), plain);
    assert_eq!(lay_out(&picks, Some(Insertion { at: u32::MAX, symbol: 4 })), plain);
}

#[test]
fn test_corpus_with_attrs_chinese() {
    let mut rng = StdRng::seed_from_u64(31);
    let mut lengths = std::collections::BTreeSet::new();
    for _ in 0..500 {
        let (num, insertion) = draw_shape(&mut rng, 50, 60, Some(12));
        assert!((50..=60).contains(&num));
        let insertion = insertion.unwrap();
        assert!(2 <= insertion.at && insertion.at <= num);
        assert!(insertion.symbol < 12);
        let picks: Vec<usize> = (0..num as usize).collect();
        let text = lay_out(&picks, Some(insertion));
        assert_eq!(text.len(), num as usize + 1);
        assert_eq!(text[insertion.at as usize - 1], Slot::Symbol(insertion.symbol));
        assert_eq!(text[0], Slot::Entry(0));
        lengths.insert(num);
    }
    assert!(lengths.len() > 1);
}

#[test]
fn a_shape_without_symbols_has_no_insertion() {
    let mut rng = StdRng::seed_from_u64(31);
    for _ in 0..100 {
        let (num, insertion) = draw_shape(&mut rng, 1, 3, None);
        assert!((1..=3).contains(&num));
        assert_eq!(insertion, None);
    }
    assert_eq!(draw_shape(&mut rng, 5, 5, None), (5, None));
    assert_eq!(
        draw_shape(&mut rng, 2, 2, Some(1)),
        (2, Some(Insertion { at: 2, symbol: 0 }))
    );
}

#[test]
fn test_wrap_text_with_font_list() {
    assert_eq!(split_chars("這是一個測試"), vec!["這", "是", "一", "個", "測", "試"]);
    assert_eq!(split_chars("aa b"), vec!["a", "a", " ", "b"]);
    assert_eq!(split_chars(""), Vec::<String>::new());
}
