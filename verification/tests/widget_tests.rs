use collatz_app::widgets::{BitCell, BitWidget, MaskWidget};

#[test]
fn unsigned_cells_show_bits_most_significant_first() {
    let w = MaskWidget::new(0b1010_0001u8);
    assert_eq!(w.cell_count(), 8);
    let on: Vec<bool> = (0..8).map(|i| w.cell(i).on).collect();
    assert_eq!(on, vec![true, false, true, false, false, false, false, true]);
    assert_eq!(w.cell(0), BitCell { bit_index: 7, on: true, even_nibble: false });
    assert_eq!(w.cell(4), BitCell { bit_index: 3, on: false, even_nibble: true });
    assert_eq!(w.interact_index(), None);
}

#[test]
fn signed_cells_show_any_bit_from_there_up() {
    let w = MaskWidget::new(i8::MIN);
    assert!((0..8).all(|i| w.cell(i).on));
    let w = MaskWidget::new(1i16);
    assert_eq!(w.cell_count(), 16);
    assert!((0..15).all(|i| !w.cell(i).on));
    assert!(w.cell(15).on);
}

#[test]
fn click_on_editable_widget_flips_bits() {
    let mut w = MaskWidget::new_tracked(0u8, 99).editable();
    assert!(w.hover(7, true));
    assert_eq!(w.mask(), 1);
    assert_eq!(w.interact_index(), Some(0));
    assert!(w.hover(0, true));
    assert_eq!(w.mask(), 0x81);
    assert_eq!(w.interact_index(), Some(7));
    assert!(!w.hover(3, false));
    assert_eq!(w.mask(), 0x81);
    assert_eq!(w.interact_index(), Some(4));
}

#[test]
fn read_only_widget_ignores_clicks() {
    let mut w = MaskWidget::new(0xffu64);
    assert!(!w.hover(63, true));
    assert_eq!(w.mask(), 0xff);
    assert_eq!(w.interact_index(), None);
}

#[test]
fn signed_click_flips_every_bit_from_there_up() {
    let mut w = MaskWidget::new(0i8).editable();
    assert!(w.hover(1, true));
    assert_eq!(w.mask(), -64i8);
    let mut w = MaskWidget::new(0i64).editable();
    assert!(w.hover(63, true));
    assert_eq!(w.mask(), -1i64);
}

#[test]
fn double_click_restores_mask() {
    for start in [0u32, 1, 0xdead_beef, u32::MAX] {
        for i in 0..32 {
            let mut w = MaskWidget::new(start).editable();
            w.hover(i, true);
            assert_ne!(w.mask(), start);
            w.hover(i, true);
            assert_eq!(w.mask(), start);
        }
    }
    let mut w = MaskWidget::new(-5i32).editable();
    w.hover(20, true);
    w.hover(20, true);
    assert_eq!(w.mask(), -5);
}

#[test]
fn wide_masks_round_trip() {
    let mut w = MaskWidget::new(0u16).editable();
    w.hover(0, true);
    assert_eq!(w.mask(), 0x8000);
    let mut w = MaskWidget::new(0u64).editable();
    w.hover(0, true);
    assert_eq!(w.mask(), 1u64 << 63);
    let w = MaskWidget::new(-1i32);
    assert!((0..32).all(|i| w.cell(i).on));
}

#[test]
fn bit_widget_states() {
    assert!(BitWidget::new(true).on());
    assert!(!BitWidget::new(false).on());
    assert!(BitWidget::new_on().on());
    assert!(!BitWidget::new_off().on());
    assert_eq!(BitWidget::new_on().glyph(), '1');
    assert_eq!(BitWidget::new_off().glyph(), '0');
}
