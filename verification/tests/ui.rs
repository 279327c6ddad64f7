use aabb_quad_tree::sys;
use aabb_quad_tree::ui::text_input::{between, INPUT_HEIGHT, INPUT_WIDTH};
use aabb_quad_tree::ui::{
    Color, Contains, Event, FontType, HorizontalOffset, Key, Login, Pointer, TextInput,
    VerticalOffset,
};
use aabb_quad_tree::ui::login::LOGIN_BUTTON;

#[test]
fn a_new_text_field_is_empty_and_out_of_focus() {
    let input = TextInput::text("Username", (10, 20));
    assert_eq!(input.rect, (10, 20, 200, 20));
    assert_eq!((INPUT_WIDTH, INPUT_HEIGHT), (200, 20));
    assert_eq!(input.name, "Username");
    assert_eq!(input.value, "");
    assert!(!input.is_password);
    assert!(!input.has_focus);
    let input = TextInput::password("Password", (-5, 60));
    assert_eq!(input.rect, (-5, 60, 200, 20));
    assert_eq!(input.name, "Password");
    assert_eq!(input.value, "");
    assert!(input.is_password);
    assert!(!input.has_focus);
}

#[test]
fn a_click_on_the_border_hits_the_field() {
    let input = TextInput::text("Username", (10, 20));
    assert!(input.is_clicked((10, 20)));
    assert!(input.is_clicked((210, 40)));
    assert!(input.is_clicked((100, 30)));
    assert!(!input.is_clicked((9, 30)));
    assert!(!input.is_clicked((211, 30)));
    assert!(!input.is_clicked((100, 19)));
    assert!(!input.is_clicked((100, 41)));
}

#[test]
fn a_field_at_the_edge_of_the_numbers_is_still_hit() {
    let mut input = TextInput::text("Far", (i32::MAX - 10, 0));
    assert!(input.is_clicked((i32::MAX, 5)));
    assert!(!input.is_clicked((i32::MAX - 11, 5)));
    input.rect = (0, 0, u32::MAX, u32::MAX);
    assert!(input.is_clicked((i32::MAX, i32::MAX)));
    assert!(!input.is_clicked((-1, 0)));
}

#[test]
fn between_counts_both_corners() {
    assert!(between(((0, 0), (10, 10)), (0, 10)));
    assert!(between(((0, 0), (10, 10)), (10, 0)));
    assert!(!between(((0, 0), (10, 10)), (11, 5)));
    assert!(!between(((0, 0), (10, 10)), (5, -1)));
    assert!(!between(((10, 10), (0, 0)), (5, 5)));
}

#[test]
fn the_value_is_copied_taken_and_shortened() {
    let mut input = TextInput::text("Name", (0, 0));
    input.value = String::from("héllo");
    assert_eq!(input.clone_value(), "héllo");
    input.backspace();
    assert_eq!(input.value, "héll");
    input.backspace();
    input.backspace();
    input.backspace();
    assert_eq!(input.value, "h");
    input.backspace();
    input.backspace();
    assert_eq!(input.value, "");
    input.value = String::from("secret");
    assert_eq!(input.take_value(), "secret");
    assert_eq!(input.value, "");
    assert_eq!(input.take_value(), "");
    assert_eq!(input.name, "Name");
}

#[test]
fn focus_comes_and_goes() {
    let mut input = TextInput::text("Name", (0, 0));
    input.on_focus();
    assert!(input.has_focus);
    input.on_blur();
    assert!(!input.has_focus);
}

#[test]
fn the_login_form_has_a_name_and_a_password() {
    let mut login = Login::default();
    assert_eq!(login.username().name, "Username");
    assert_eq!(login.username().rect, (10, 10, 200, 20));
    assert!(!login.username().is_password);
    assert_eq!(login.password_mut().name, "Password");
    assert_eq!(login.password_mut().rect, (10, 60, 200, 20));
    assert!(login.password_mut().is_password);
    login.password_mut().value = String::from("dsa");
    assert_eq!(login.inputs[1].value, "dsa");
    assert_eq!(login.password_mut().take_value(), "dsa");
    assert_eq!(login.inputs[1].value, "");
    assert_eq!(login.username().clone_value(), "");
}

#[test]
fn a_rectangle_holds_its_borders() {
    assert!((90, 100, 100, 30).contains((90, 100)));
    assert!((90, 100, 100, 30).contains((190, 130)));
    assert!(!(90, 100, 100, 30).contains((191, 130)));
    assert!(!(90, 100, 100, 30).contains((190, 131)));
    assert!(!(90, 100, 100, 30).contains((89, 110)));
    assert!((i32::MAX, 0, u32::MAX, 1).contains((i32::MAX, 1)));
}

#[test]
fn labels_are_shifted_by_their_size() {
    assert_eq!(HorizontalOffset::Left.calculate(100, 31), 100);
    assert_eq!(HorizontalOffset::Center.calculate(100, 31), 85);
    assert_eq!(HorizontalOffset::Right.calculate(100, 31), 69);
    assert_eq!(VerticalOffset::Top.calculate(-5, 10), -5);
    assert_eq!(VerticalOffset::Center.calculate(-5, 10), -10);
    assert_eq!(VerticalOffset::Bottom.calculate(-5, 10), -15);
    assert_eq!(HorizontalOffset::Right.calculate(i32::MAX, u32::MAX), i32::MIN);
}

#[test]
fn window_events_carry_their_data() {
    let event = Event::TextInput { text: String::from("a") };
    assert!(matches!(event.clone(), Event::TextInput { text } if text == "a"));
    assert!(matches!(Event::Click { x: 1, y: 2 }, Event::Click { x: 1, y: 2 }));
    assert_eq!(FontType::Roboto, FontType::Roboto);
}

#[test]
fn only_quit_is_quit() {
    assert!(sys::Event::Quit.is_quit());
    assert!(!sys::Event::Input(sys::UserInput::ViewHeatMap).is_quit());
    assert!(!sys::Event::Input(sys::UserInput::ViewMaterialMap).is_quit());
}

#[test]
fn a_choice_switches_the_view() {
    let mut window = sys::WindowState::default();
    assert_eq!(window.viewport, (0, 0, 800, 600));
    assert_eq!(window.view, sys::WindowStateView::HeatMap);
    sys::UserInput::ViewMaterialMap.apply(&mut window);
    assert_eq!(window.view, sys::WindowStateView::MaterialMap);
    assert_eq!(window.viewport, (0, 0, 800, 600));
    sys::UserInput::ViewHeatMap.apply(&mut window);
    assert_eq!(window.view, sys::WindowStateView::HeatMap);
}

#[test]
fn typing_goes_to_the_field_with_the_keyboard() {
    let mut login = Login::default();
    login.text_input("lost");
    assert_eq!(login.inputs[0].value, "");
    assert_eq!(login.inputs[1].value, "");
    assert_eq!(login.layout_click((20, 15)), Some(0));
    assert!(login.inputs[0].has_focus);
    login.text_input("bo");
    login.text_input("b");
    assert_eq!(login.inputs[0].value, "bob");
    assert_eq!(login.tab_pressed(), 1);
    assert!(!login.inputs[0].has_focus);
    assert!(login.inputs[1].has_focus);
    login.text_input("pw!");
    login.backspace_pressed();
    assert_eq!(login.inputs[0].value, "bob");
    assert_eq!(login.inputs[1].value, "pw");
    assert_eq!(login.tab_pressed(), 0);
    assert!(login.inputs[0].has_focus);
    assert!(!login.inputs[1].has_focus);
}

#[test]
fn the_tabulator_starts_with_the_first_field() {
    let mut login = Login::default();
    assert_eq!(login.tab_pressed(), 0);
    assert!(login.inputs[0].has_focus);
    assert!(!login.inputs[1].has_focus);
    login.inputs[1].has_focus = true;
    assert_eq!(login.tab_pressed(), 1);
    assert!(!login.inputs[0].has_focus);
    assert!(login.inputs[1].has_focus);
}

#[test]
fn a_click_moves_the_keyboard() {
    let mut login = Login::default();
    assert_eq!(login.layout_click((20, 65)), Some(1));
    assert!(login.inputs[1].has_focus);
    assert_eq!(login.layout_click((500, 500)), None);
    assert!(login.inputs[1].has_focus);
    assert_eq!(login.layout_click((10, 10)), Some(0));
    assert!(login.inputs[0].has_focus);
    assert!(!login.inputs[1].has_focus);
    assert_eq!(login.blur_all(), 1);
    assert_eq!(login.blur_all(), 0);
    assert!(!login.inputs[0].has_focus);
}

#[test]
fn the_button_and_the_return_key_send_the_form() {
    assert_eq!(LOGIN_BUTTON, (90, 100, 100, 30));
    let mut login = Login::default();
    login.inputs[0].value = String::from("alice");
    login.inputs[1].value = String::from("secret");
    login.inputs[1].has_focus = true;
    let clicked = login.click((300, 300));
    assert_eq!(clicked.focused, None);
    assert!(clicked.request.is_none());
    assert!(login.inputs[1].has_focus);
    let clicked = login.click((100, 105));
    assert_eq!(clicked.focused, None);
    let request = clicked.request.unwrap();
    assert_eq!(request.username, "alice");
    assert_eq!(request.password, "secret");
    assert_eq!(login.inputs[0].value, "alice");
    assert_eq!(login.inputs[1].value, "");
    assert!(!login.inputs[1].has_focus);
    login.inputs[1].value = String::from("again");
    login.inputs[0].has_focus = true;
    let request = login.enter_pressed();
    assert_eq!(request.username, "alice");
    assert_eq!(request.password, "again");
    assert_eq!(login.inputs[1].value, "");
    assert!(!login.inputs[0].has_focus);
}

#[test]
fn keys_raise_events() {
    assert!(matches!(Event::from_key(Key::Escape), Some(Event::CloseRequested)));
    assert!(matches!(Event::from_key(Key::Tab), Some(Event::Tab)));
    assert!(matches!(Event::from_key(Key::Return), Some(Event::Enter)));
    assert!(matches!(Event::from_key(Key::KpEnter), Some(Event::Enter)));
    assert!(matches!(Event::from_key(Key::Backspace), Some(Event::Backspace)));
    assert!(Event::from_key(Key::Num1).is_none());
    assert!(Event::from_key(Key::Other).is_none());
    assert_eq!(sys::Event::from_key(Key::Escape), Some(sys::Event::Quit));
    assert_eq!(
        sys::Event::from_key(Key::Num1),
        Some(sys::Event::Input(sys::UserInput::ViewMaterialMap))
    );
    assert_eq!(
        sys::Event::from_key(Key::Num2),
        Some(sys::Event::Input(sys::UserInput::ViewHeatMap))
    );
    assert_eq!(sys::Event::from_key(Key::Tab), None);
    assert_eq!(sys::Event::from_key(Key::Other), None);
}

#[test]
fn the_mouse_is_near_within_the_distance() {
    let mut pointer = Pointer::default();
    assert!(!pointer.mouse_near((0, 0), 10));
    pointer.set_last_mouse_position((100, 100));
    assert!(pointer.mouse_near((109, 91), 10));
    assert!(!pointer.mouse_near((110, 100), 10));
    assert!(!pointer.mouse_near((100, 90), 10));
    assert!(!pointer.mouse_near((100, 100), 0));
    pointer.set_last_mouse_position((i32::MIN, i32::MAX));
    assert!(!pointer.mouse_near((i32::MAX, i32::MIN), u32::MAX));
    assert!(pointer.mouse_near((i32::MAX - 1, i32::MIN + 1), u32::MAX));
}

#[test]
fn the_backdrop_drifts_and_turns() {
    let mut backdrop = sys::Backdrop::default();
    assert_eq!(backdrop.clear(false), (0, 64, 255));
    assert_eq!(backdrop, sys::Backdrop::default());
    assert_eq!(backdrop.clear(true), (0, 64, 255));
    assert_eq!(backdrop.clear(true), (3, 64, 252));
    for _ in 0..83 {
        backdrop.clear(true);
    }
    assert_eq!(backdrop.clear(true), (255, 64, 0));
    assert_eq!(backdrop, sys::Backdrop { clear_color_index: 255, clear_color_direction: -1 });
    assert_eq!(backdrop.clear(true), (255, 64, 0));
    assert_eq!(backdrop.clear(true), (252, 64, 3));
    backdrop.clear_color_index = 2;
    assert_eq!(backdrop.clear(true), (2, 64, 253));
    assert_eq!(backdrop, sys::Backdrop { clear_color_index: 2, clear_color_direction: 1 });
    assert_eq!(backdrop.clear(true), (2, 64, 253));
    assert_eq!(backdrop.clear(true), (5, 64, 250));
}

#[test]
fn a_password_is_shown_as_stars() {
    let mut input = TextInput::password("Password", (0, 0));
    assert_eq!(input.display_value(), "");
    input.value = String::from("pä$s");
    assert_eq!(input.display_value(), "****");
    input.is_password = false;
    assert_eq!(input.display_value(), "pä$s");
}

#[test]
fn the_named_colours() {
    assert_eq!(Color::blue(), Color { r: 0, g: 0, b: 255 });
    assert_eq!(Color::white(), Color { r: 255, g: 255, b: 255 });
    assert_eq!(Color::dark_gray(), Color { r: 50, g: 50, b: 50 });
    assert_eq!(Color::black(), Color { r: 0, g: 0, b: 0 });
}
