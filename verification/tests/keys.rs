use shinobu8_core::key_from_char;

#[test]
fn keypad_layout_maps_qwerty_left_hand() {
    assert_eq!(key_from_char('1'), Some(0x1));
    assert_eq!(key_from_char('2'), Some(0x2));
    assert_eq!(key_from_char('3'), Some(0x3));
    assert_eq!(key_from_char('4'), Some(0xC));
    assert_eq!(key_from_char('q'), Some(0x4));
    assert_eq!(key_from_char('w'), Some(0x5));
    assert_eq!(key_from_char('e'), Some(0x6));
    assert_eq!(key_from_char('r'), Some(0xD));
    assert_eq!(key_from_char('a'), Some(0x7));
    assert_eq!(key_from_char('s'), Some(0x8));
    assert_eq!(key_from_char('d'), Some(0x9));
    assert_eq!(key_from_char('f'), Some(0xE));
    assert_eq!(key_from_char('z'), Some(0xA));
    assert_eq!(key_from_char('x'), Some(0x0));
    assert_eq!(key_from_char('c'), Some(0xB));
    assert_eq!(key_from_char('v'), Some(0xF));
}

#[test]
fn unmapped_characters_give_no_key() {
    assert_eq!(key_from_char('5'), None);
    assert_eq!(key_from_char('g'), None);
    assert_eq!(key_from_char(' '), None);
    assert_eq!(key_from_char('Q'), None);
}
