use collatz_app::state::{CollatzApp, EditMode, EventFault, UiEvent};

fn app_with(base: u64, mode: EditMode, masks: Vec<u64>) -> CollatzApp {
    CollatzApp::from_parts("x".to_string(), base, masks, mode, 0, 0)
}

#[test]
fn default_state() {
    let app = CollatzApp::default();
    assert_eq!(app.label().as_str(), "Hello World!");
    assert_eq!(app.base_mask(), 0);
    assert_eq!(app.masks(), &vec![0]);
    assert_eq!(app.edit_mode(), EditMode::Edit);
    assert_eq!(app.test_mask(), 0);
    assert_eq!(app.tab_index(), 0);
    assert_eq!(EditMode::default(), EditMode::Edit);
}

#[test]
fn hover_events_set_label() {
    let mut app = CollatzApp::default();
    app.apply(UiEvent::MaskHovered(12));
    assert_eq!(app.label().as_str(), "Interact index: 12");
    app.apply(UiEvent::TestMaskHovered(5));
    assert_eq!(app.label().as_str(), "Interact Index: 5");
    app.apply(UiEvent::MaskHovered(0));
    assert_eq!(app.label().as_str(), "Interact index: 0");
    app.apply(UiEvent::TabSelected(3));
    assert_eq!(app.tab_index(), 3);
}

#[test]
fn edit_mode_keeps_edits_and_list() {
    let mut app = CollatzApp::default();
    app.apply(UiEvent::BaseMaskEdited { mask: 3, clicked: true });
    assert_eq!(app.base_mask(), 3);
    assert_eq!(app.masks(), &vec![0]);
    app.apply(UiEvent::ShiftLeft);
    assert_eq!(app.base_mask(), 6);
    app.apply(UiEvent::ShiftRight);
    app.apply(UiEvent::ShiftRight);
    assert_eq!(app.base_mask(), 1);
    assert_eq!(app.masks(), &vec![0]);
}

#[test]
fn locked_mode_ignores_edits() {
    let mut app = app_with(7, EditMode::Locked, vec![1, 2]);
    app.apply(UiEvent::BaseMaskEdited { mask: 3, clicked: true });
    assert_eq!(app.base_mask(), 7);
    assert_eq!(app.masks(), &vec![1, 2]);
}

#[test]
fn auto_modes_follow_the_main_mask() {
    let mut app = app_with(3, EditMode::Edit, vec![0]);
    app.apply(UiEvent::EditModeSelected(EditMode::AutoCollatz));
    assert_eq!(app.edit_mode(), EditMode::AutoCollatz);
    assert_eq!(app.masks(), &vec![10, 5, 16, 8, 4, 2, 1]);
    app.apply(UiEvent::ShiftLeft);
    assert_eq!(app.base_mask(), 6);
    assert_eq!(app.masks(), &vec![3, 10, 5, 16, 8, 4, 2, 1]);
    app.apply(UiEvent::EditModeSelected(EditMode::AutoFastCollatz));
    assert_eq!(app.masks(), &vec![3, 5, 1]);
    app.apply(UiEvent::BaseMaskEdited { mask: 5, clicked: false });
    assert_eq!(app.base_mask(), 5);
    assert_eq!(app.masks(), &vec![3, 5, 1]);
    app.apply(UiEvent::BaseMaskEdited { mask: 5, clicked: true });
    assert_eq!(app.masks(), &vec![1]);
    app.apply(UiEvent::EditModeSelected(EditMode::AutoFastCollatz));
    assert_eq!(app.masks(), &vec![1]);
}

#[test]
fn buttons_fill_regardless_of_mode() {
    let mut app = app_with(6, EditMode::Locked, vec![0]);
    app.apply(UiEvent::Collatz);
    assert_eq!(app.masks(), &vec![3, 10, 5, 16, 8, 4, 2, 1]);
    app.apply(UiEvent::FastCollatz);
    assert_eq!(app.masks(), &vec![3, 5, 1]);
    app.apply(UiEvent::Base2Steps);
    assert_eq!(app.masks(), &vec![3, 0, 0]);
}

#[test]
fn try_apply_refuses_what_cannot_finish() {
    let mut app = app_with(0, EditMode::Edit, vec![0]);
    assert_eq!(
        app.try_apply(UiEvent::EditModeSelected(EditMode::AutoCollatz), 1000),
        Err(EventFault::Undecided)
    );
    assert_eq!(app.edit_mode(), EditMode::Edit);
    assert_eq!(
        app.try_apply(UiEvent::EditModeSelected(EditMode::AutoFastCollatz), 1000),
        Err(EventFault::Panics)
    );
    assert_eq!(app.try_apply(UiEvent::Base2Steps, 1000), Err(EventFault::Panics));
    assert_eq!(app.try_apply(UiEvent::Clear, 0), Ok(()));
    let mut app = app_with(2, EditMode::Edit, vec![]);
    assert_eq!(app.try_apply(UiEvent::Base2Steps, 1000), Err(EventFault::Panics));
    let mut app = app_with(3, EditMode::Edit, vec![0]);
    assert_eq!(app.try_apply(UiEvent::Collatz, 6), Err(EventFault::Undecided));
    assert_eq!(app.try_apply(UiEvent::Collatz, 7), Ok(()));
    assert_eq!(app.masks(), &vec![10, 5, 16, 8, 4, 2, 1]);
    let mut app = app_with(u64::MAX, EditMode::Edit, vec![0]);
    assert_eq!(app.try_apply(UiEvent::Collatz, 7), Err(EventFault::Panics));
}

#[test]
fn clear_in_auto_mode_needs_a_trajectory_from_zero() {
    let mut app = app_with(5, EditMode::AutoCollatz, vec![1]);
    assert_eq!(app.try_apply(UiEvent::Clear, 500), Err(EventFault::Undecided));
    assert_eq!(app.base_mask(), 5);
    let mut app = app_with(5, EditMode::Edit, vec![1]);
    assert_eq!(app.try_apply(UiEvent::Clear, 500), Ok(()));
    assert_eq!(app.base_mask(), 0);
    assert_eq!(app.masks(), &vec![1]);
}

#[test]
fn on_mask_update_follows_mode() {
    let mut app = app_with(4, EditMode::AutoCollatz, vec![9, 9]);
    app.on_mask_update();
    assert_eq!(app.masks(), &vec![2, 1]);
    let mut app = app_with(4, EditMode::Edit, vec![9, 9]);
    app.on_mask_update();
    assert_eq!(app.masks(), &vec![9, 9]);
}

#[test]
fn try_on_mask_update_checks_the_trajectory() {
    let mut app = app_with(0, EditMode::AutoFastCollatz, vec![9]);
    assert_eq!(app.try_on_mask_update(100), Err(EventFault::Panics));
    assert_eq!(app.masks(), &vec![9]);
    let mut app = app_with(0, EditMode::AutoCollatz, vec![9]);
    assert_eq!(app.try_on_mask_update(100), Err(EventFault::Undecided));
    let mut app = app_with(0, EditMode::Edit, vec![9]);
    assert_eq!(app.try_on_mask_update(0), Ok(()));
    assert_eq!(app.masks(), &vec![9]);
    let mut app = app_with(8, EditMode::AutoCollatz, vec![9]);
    assert_eq!(app.try_on_mask_update(3), Ok(()));
    assert_eq!(app.masks(), &vec![4, 2, 1]);
}

#[test]
fn hover_labels_print_full_decimal() {
    let mut app = CollatzApp::default();
    app.apply(UiEvent::MaskHovered(u32::MAX));
    assert_eq!(app.label().as_str(), "Interact index: 4294967295");
    app.apply(UiEvent::TestMaskHovered(407));
    assert_eq!(app.label().as_str(), "Interact Index: 407");
    app.apply(UiEvent::MaskHovered(10));
    assert_eq!(app.label().as_str(), "Interact index: 10");
}
