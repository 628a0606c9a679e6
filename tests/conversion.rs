use unicode_raster_graphics::{lumas_to_unicode, luma_to_char, ConvertError, Luma};

fn lumas(values: &[u8]) -> Vec<Luma> {
    values.iter().map(|&v| Luma::from(v)).collect()
}

#[test]
fn three_rows_of_two() {
    let input = lumas(&[0, 0, 127, 127, 255, 255]);
    let text = lumas_to_unicode(&input, 2, &[' ', '=', '#']).unwrap();
    assert_eq!(text, "  \n==\n##\n");
}

#[test]
fn boundary_samples_take_first_and_last() {
    let palette = ['a', 'b', 'c', 'd', 'e'];
    assert_eq!(luma_to_char(Luma::new(0), &palette), 'a');
    assert_eq!(luma_to_char(Luma::new(255), &palette), 'e');
    let two = ['x', 'y'];
    assert_eq!(luma_to_char(Luma::new(0), &two), 'x');
    assert_eq!(luma_to_char(Luma::new(255), &two), 'y');
}

#[test]
fn brighter_never_earlier() {
    let palette: Vec<char> = "0123456789".chars().collect();
    let mut last = 0usize;
    for m in 0..=255u8 {
        let c = luma_to_char(Luma::new(m), &palette);
        let idx = palette.iter().position(|&p| p == c).unwrap();
        assert!(idx >= last);
        last = idx;
    }
    assert_eq!(last, 9);
}

#[test]
fn single_entry_palette() {
    for m in 0..=255u8 {
        assert_eq!(luma_to_char(Luma::new(m), &['@']), '@');
    }
}

#[test]
fn nearest_palette_position() {
    let palette = ['0', '1', '2', '3', '4'];
    // 4 * 31 / 255 = 0.486..., 4 * 32 / 255 = 0.501...
    assert_eq!(luma_to_char(Luma::new(31), &palette), '0');
    assert_eq!(luma_to_char(Luma::new(32), &palette), '1');
    // 4 * 128 / 255 = 2.007...
    assert_eq!(luma_to_char(Luma::new(128), &palette), '2');
    assert_eq!(luma_to_char(Luma::new(127), &[' ', '=', '#']), '=');
}

#[test]
fn exact_division_rows() {
    let input = lumas(&[0; 12]);
    let text = lumas_to_unicode(&input, 4, &['.', '#']).unwrap();
    let rows: Vec<&str> = text.split_terminator('\n').collect();
    assert_eq!(rows.len(), 3);
    assert!(rows.iter().all(|r| r.chars().count() == 4));
    assert_eq!(text.matches('\n').count(), 3);
    assert_eq!(text, "....\n....\n....\n");
}

#[test]
fn remainder_row_is_kept() {
    let input = lumas(&[255, 255, 255, 0, 0, 0, 0]);
    let text = lumas_to_unicode(&input, 3, &['.', '#']).unwrap();
    assert_eq!(text, "###\n...\n.\n");
}

#[test]
fn width_wider_than_input() {
    let input = lumas(&[255, 0]);
    let text = lumas_to_unicode(&input, 10, &['.', '#']).unwrap();
    assert_eq!(text, "#.\n");
}

#[test]
fn empty_input_gives_empty_text() {
    let text = lumas_to_unicode(&[], 3, &['.', '#']).unwrap();
    assert_eq!(text, "");
}

#[test]
fn empty_palette_is_refused() {
    let input = lumas(&[1, 2, 3]);
    assert_eq!(lumas_to_unicode(&input, 2, &[]), Err(ConvertError::EmptyPalette));
    assert_eq!(lumas_to_unicode(&[], 2, &[]), Err(ConvertError::EmptyPalette));
}

#[test]
fn zero_width_is_refused() {
    let input = lumas(&[1, 2, 3]);
    assert_eq!(lumas_to_unicode(&input, 0, &['a']), Err(ConvertError::ZeroWidth));
    assert_eq!(lumas_to_unicode(&input, 0, &[]), Err(ConvertError::ZeroWidth));
}

#[test]
fn luma_conversions() {
    let l = Luma::from(200u8);
    assert_eq!(l.luma, 200);
    assert_eq!(u8::from(l), 200);
    assert_eq!(Luma::new(7), Luma { luma: 7 });
    assert_eq!(Luma::default(), Luma::new(0));
    assert!(Luma::new(3) < Luma::new(4));
}
