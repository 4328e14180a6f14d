use freenet_lib::helper::{
    app_command_lparam, click_lparam, click_window_command, parse_click_coords, parse_helper_command,
    HelperCommand,
};
use freenet_lib::hotkeys::MediaAction;

#[test]
fn click_coordinates() {
    assert_eq!(parse_click_coords("10,20"), Some((10, 20)));
    assert_eq!(parse_click_coords(" 10 , -20 "), Some((10, -20)));
    assert_eq!(parse_click_coords("10"), None);
    assert_eq!(parse_click_coords("a,b"), None);
    assert_eq!(parse_click_coords("1,2,3"), None);
    assert_eq!(parse_click_coords("2147483648,0"), None);
}

#[test]
fn helper_commands() {
    assert_eq!(parse_helper_command("play_pause"), HelperCommand::Media(MediaAction::PlayPause));
    assert_eq!(parse_helper_command("next"), HelperCommand::Media(MediaAction::Next));
    assert_eq!(parse_helper_command("prev"), HelperCommand::Media(MediaAction::Prev));
    assert_eq!(parse_helper_command("quit"), HelperCommand::Quit);
    assert_eq!(parse_helper_command("click 5,6"), HelperCommand::Click(5, 6));
    assert_eq!(parse_helper_command("click x,6"), HelperCommand::Ignore);
    assert_eq!(parse_helper_command("clickwin 123, 4 ,-5"), HelperCommand::ClickWindow(123, 4, -5));
    assert_eq!(parse_helper_command("clickwin 1,2"), HelperCommand::Ignore);
    assert_eq!(parse_helper_command("NEXT"), HelperCommand::Ignore);
    assert_eq!(parse_helper_command(""), HelperCommand::Ignore);
}

#[test]
fn click_window_command_round_trip() {
    let c = click_window_command(123456, -40, 7);
    assert_eq!(c, "clickwin 123456,-40,7");
    assert_eq!(parse_helper_command(&c), HelperCommand::ClickWindow(123456, -40, 7));
    let c = click_window_command(0, i32::MIN, i32::MAX);
    assert_eq!(parse_helper_command(&c), HelperCommand::ClickWindow(0, i32::MIN, i32::MAX));
}

#[test]
fn formatted_coordinates_read_back() {
    for (x, y) in [(0, 0), (12, -7), (i32::MIN, i32::MAX), (-1, 2147483647)] {
        assert_eq!(parse_click_coords(&format!("{},{}", x, y)), Some((x, y)));
        assert_eq!(parse_click_coords(&format!(" {} , {} ", x, y)), Some((x, y)));
        assert_eq!(parse_click_coords(&x.to_string()), None);
    }
}

#[test]
fn media_command_lparams() {
    assert_eq!(app_command_lparam(MediaAction::PlayPause), 14 << 16);
    assert_eq!(app_command_lparam(MediaAction::Next), 11 << 16);
    assert_eq!(app_command_lparam(MediaAction::Prev), 12 << 16);
}

#[test]
fn click_point_lparams() {
    assert_eq!(click_lparam(5, 7), 7 * 65536 + 5);
    assert_eq!(click_lparam(-1, -2), -65537);
    assert_eq!(click_lparam(0x12345, 1), 65536 + 0x2345);
    assert_eq!(click_lparam(i32::MIN, i32::MAX), ((i32::MAX as i64) << 16) | 0);
}
