use chariot_client::drawable::string::StringAlignment;
use chariot_client::drawable::technique::skybox::SkyboxTechnique;
use chariot_client::menu_input::{
    gamepad_select_action, keyboard_select_action, next_chair, previous_chair, Chair,
    invert_event, keyboard_drive_input, DriveInput, DriveKey, PressedKeys, SelectAction,
    SelectInput,
};
use chariot_client::resources::{Handle, HandleCounter, StaticMeshHandle};
use chariot_client::ui_state::{
    countdown_changed, countdown_state_for, displayed_place, place_image_index, place_texture_name,
    timer_fields, CountdownState,
};

#[test]
fn chair_carousel() {
    assert!(next_chair(Chair::Swivel) == Chair::Recliner);
    assert!(next_chair(Chair::Folding) == Chair::Swivel);
    assert!(previous_chair(Chair::Swivel) == Chair::Folding);
    assert!(previous_chair(Chair::Beanbag) == Chair::Recliner);
    let all = [Chair::Swivel, Chair::Recliner, Chair::Beanbag, Chair::Ergonomic, Chair::Folding];
    for c in all {
        assert!(previous_chair(next_chair(c)) == c);
        assert!(next_chair(previous_chair(c)) == c);
        let mut d = c;
        for _ in 0..5 {
            d = next_chair(d);
        }
        assert!(d == c);
    }
}

#[test]
fn chair_select_inputs() {
    assert!(keyboard_select_action(SelectInput::Right, Chair::Ergonomic) == SelectAction::PickChair(Chair::Folding));
    assert!(keyboard_select_action(SelectInput::Left, Chair::Swivel) == SelectAction::PickChair(Chair::Folding));
    assert!(keyboard_select_action(SelectInput::Up, Chair::Swivel) == SelectAction::SignalReady);
    assert!(keyboard_select_action(SelectInput::Start, Chair::Swivel) == SelectAction::Nothing);
    assert!(gamepad_select_action(SelectInput::Select, true, Chair::Swivel) == SelectAction::ForceStart);
    assert!(gamepad_select_action(SelectInput::Start, true, Chair::Swivel) == SelectAction::SignalReady);
    assert!(gamepad_select_action(SelectInput::Right, true, Chair::Beanbag) == SelectAction::PickChair(Chair::Ergonomic));
    assert!(gamepad_select_action(SelectInput::Left, true, Chair::Beanbag) == SelectAction::PickChair(Chair::Recliner));
    assert!(gamepad_select_action(SelectInput::Right, false, Chair::Beanbag) == SelectAction::Nothing);
    assert!(gamepad_select_action(SelectInput::Up, true, Chair::Beanbag) == SelectAction::Nothing);
}

#[test]
fn countdown_stages() {
    assert!(countdown_state_for(Ok(5)) == CountdownState::Three);
    assert!(countdown_state_for(Ok(2)) == CountdownState::Three);
    assert!(countdown_state_for(Ok(1)) == CountdownState::Two);
    assert!(countdown_state_for(Ok(0)) == CountdownState::One);
    assert!(countdown_state_for(Err(0)) == CountdownState::Start);
    assert!(countdown_state_for(Err(3)) == CountdownState::Hidden);
    assert!(countdown_changed(CountdownState::Three, CountdownState::Two));
    assert!(!countdown_changed(CountdownState::Two, CountdownState::Two));
}

#[test]
fn placement_display() {
    assert_eq!(displayed_place(3), 3);
    assert_eq!(displayed_place(4), 4);
    assert_eq!(displayed_place(5), 1);
    assert_eq!(displayed_place(200), 1);
    assert_eq!(place_texture_name(1), "1st");
    assert_eq!(place_texture_name(2), "2nd");
    assert_eq!(place_texture_name(3), "3rd");
    assert_eq!(place_texture_name(4), "4th");
    assert_eq!(place_texture_name(9), "1st");
    assert_eq!(place_image_index(1), 0);
    assert_eq!(place_image_index(4), 3);
}

#[test]
fn timer_split() {
    assert_eq!(timer_fields(0, 0), (0, 0, 0));
    assert_eq!(timer_fields(125, 42), (2, 5, 42));
    assert_eq!(timer_fields(3600, 999), (60, 0, 999));
}

#[test]
fn skybox_keeps_its_quad() {
    let mut counter = HandleCounter::new();
    let q = StaticMeshHandle::unique(&mut counter);
    let sky = SkyboxTechnique::new(q);
    assert!(sky.quad_handle() == q);
    assert!(sky.quad_handle() != StaticMeshHandle::invalid());
    assert_eq!(SkyboxTechnique::PASS_NAME, "skybox");
    let a = StringAlignment::CENTERED;
    assert!(a == StringAlignment::CENTERED && a != StringAlignment::LEFT);
}

#[test]
fn key_press_counted_once() {
    let mut keys = PressedKeys::new();
    assert!(keys.press(17));
    assert!(!keys.press(17));
    assert!(keys.press(3));
    assert!(keys.contains(17) && keys.contains(3));
    keys.release(17);
    assert!(!keys.contains(17));
    assert!(keys.contains(3));
    assert!(keys.press(17));
    keys.release(99);
    assert!(keys.contains(17));
}

#[test]
fn drive_keys_and_release() {
    assert!(keyboard_drive_input(DriveKey::W) == Some(DriveInput::Accelerate));
    assert!(keyboard_drive_input(DriveKey::S) == Some(DriveInput::Brake));
    assert!(keyboard_drive_input(DriveKey::A) == Some(DriveInput::SpinCounterclockwise));
    assert!(keyboard_drive_input(DriveKey::D) == Some(DriveInput::SpinClockwise));
    assert!(keyboard_drive_input(DriveKey::Other).is_none());
    assert!(invert_event(keyboard_drive_input(DriveKey::W)) == Some(DriveInput::EngineNeutral));
    assert!(invert_event(keyboard_drive_input(DriveKey::S)) == Some(DriveInput::EngineNeutral));
    assert!(invert_event(keyboard_drive_input(DriveKey::A)) == Some(DriveInput::NotInSpin));
    assert!(invert_event(keyboard_drive_input(DriveKey::D)) == Some(DriveInput::NotInSpin));
    assert!(invert_event(None).is_none());
    assert!(invert_event(Some(DriveInput::EngineNeutral)).is_none());
}
