use nzm_cmd::frames::{
    char_to_keycode, encode_frame, get_hid_code, heartbeat_payload, key_down_payload, key_up_payload, mouse_abs_payload,
    mouse_down_payload, relative_move_payloads, switch_identity_payload, EventType,
};
use nzm_cmd::makcu::config::MakcuConfig;
use nzm_cmd::makcu::error::MakcuError;
use nzm_cmd::makcu::keyboard::{Key, KeyboardControl, ModifierKey, SystemKey};
use nzm_cmd::makcu::led::{LedControl, LedMode, LedState, LedTarget};
use nzm_cmd::makcu::system::SystemControl;
use nzm_cmd::makcu::mouse::{LockDirection, LockState, MouseAxis, MouseButtons, MouseControl};
use std::time::Duration;

#[test]
fn click_commands() {
    assert_eq!(MouseControl::build_click_command(MouseButtons::Right, 3), ".click(2,3)\r\n");
    assert_eq!(MouseControl::build_get_button_command(MouseButtons::Side1), ".side1()\r\n");
    assert_eq!(MouseControl::build_set_button_command(MouseButtons::Left, 1), ".left(1)\r\n");
    assert_eq!(
        MouseControl::build_click_with_delay_command(MouseButtons::Middle, 2, 5000).unwrap(),
        ".click(3,2,5000)\r\n"
    );
}

#[test]
fn delay_over_limit_is_rejected() {
    assert_eq!(
        MouseControl::build_click_with_delay_command(MouseButtons::Left, 1, 5001),
        Err(MakcuError::InvalidParameter("延迟不能超过5000ms".to_string()))
    );
    assert!(MouseControl::build_turbo_command(MouseButtons::Left, 6000).is_err());
    assert_eq!(MouseControl::build_turbo_command(MouseButtons::Side2, 250).unwrap(), ".turbo(5,250)\r\n");
    assert_eq!(MouseControl::build_disable_turbo_command(MouseButtons::Left), ".turbo(1,0)\r\n");
    assert_eq!(MouseControl::build_disable_all_turbo_command(), ".turbo(0)\r\n");
}

#[test]
fn move_commands() {
    assert_eq!(MouseControl::build_move_command(-5, 7, None, None).unwrap(), ".move(-5,7,1)\r\n");
    assert_eq!(
        MouseControl::build_move_command(10, -20, Some(8), Some([(1, -2), (-3, 4)])).unwrap(),
        ".move(10,-20,8,1,-2,-3,4)\r\n"
    );
    assert_eq!(
        MouseControl::build_move_command(0, 0, Some(513), None),
        Err(MakcuError::InvalidParameter("分段数不能超过512".to_string()))
    );
    assert_eq!(MouseControl::build_moveto_command(640, 480, Some(512), None).unwrap(), ".moveto(640,480,512)\r\n");
    assert_eq!(MouseControl::build_silent_command(3, 4), ".silent(3,4)\r\n");
    assert_eq!(MouseControl::build_getpos_command(), ".getpos()\r\n");
}

#[test]
fn wheel_pan_tilt() {
    assert_eq!(MouseControl::build_wheel_command(-90), ".wheel(-1)\r\n");
    assert_eq!(MouseControl::build_wheel_command(5), ".wheel(1)\r\n");
    assert_eq!(MouseControl::build_wheel_command(0), ".wheel(0)\r\n");
    assert_eq!(MouseControl::build_pan_command(-32768), ".pan(-32768)\r\n");
    assert_eq!(MouseControl::build_tilt_command(12), ".tilt(12)\r\n");
}

#[test]
fn locks_catch_and_remaps() {
    assert_eq!(
        MouseControl::build_lock_axis_command(MouseAxis::X, LockDirection::Positive, LockState::Locked),
        ".lock_mx+(1)\r\n"
    );
    assert_eq!(
        MouseControl::build_lock_axis_command(MouseAxis::Wheel, LockDirection::Both, LockState::Unlocked),
        ".lock_mw(0)\r\n"
    );
    assert_eq!(MouseControl::build_lock_axis_command(MouseAxis::Pan, LockDirection::Both, LockState::Locked), "");
    assert_eq!(MouseControl::build_lock_button_command(MouseButtons::Side2, LockState::Locked), ".lock_ms2(1)\r\n");
    assert_eq!(MouseControl::build_catch_command(MouseButtons::Middle, 0), ".catch_mm(0)\r\n");
    assert_eq!(MouseControl::build_remap_button_command(MouseButtons::Left, MouseButtons::Right), ".remap_button(1,2)\r\n");
    assert_eq!(MouseControl::build_reset_button_remap_command(), ".remap_button(0)\r\n");
    assert_eq!(MouseControl::build_remap_axis_command(true, false, true), ".remap_axis(1,0,1)\r\n");
    assert_eq!(MouseControl::build_reset_axis_remap_command(), ".remap_axis(0)\r\n");
    assert_eq!(MouseControl::button_name(MouseButtons::Middle), "middle");
}

#[test]
fn key_commands() {
    assert_eq!(KeyboardControl::build_down_command(Key::Letter('q')), ".down(q)\r\n");
    assert_eq!(KeyboardControl::build_up_command(Key::Function(11)), ".up(f11)\r\n");
    assert_eq!(KeyboardControl::build_isdown_command(Key::System(SystemKey::PageDown)), ".isdown(pagedown)\r\n");
    assert_eq!(KeyboardControl::build_mask_command(Key::Modifier(ModifierKey::RightAlt), 2), ".mask(alt,2)\r\n");
    assert_eq!(
        KeyboardControl::build_remap_command(Key::Number('1'), Key::Modifier(ModifierKey::LeftGui)),
        ".remap(1,win)\r\n"
    );
    assert_eq!(KeyboardControl::build_clear_remap_command(Key::Letter('z')), ".remap(z,0)\r\n");
    assert_eq!(KeyboardControl::build_reset_remap_command(), ".remap(0)\r\n");
    assert_eq!(KeyboardControl::build_enable_command(Key::System(SystemKey::Escape)), ".disable(escape,0)\r\n");
    assert_eq!(KeyboardControl::build_init_command(), ".init()\r\n");
}

#[test]
fn press_and_disable_lists() {
    assert_eq!(KeyboardControl::build_press_command(Key::Letter('a'), None, None).unwrap(), ".press(a)\r\n");
    assert_eq!(
        KeyboardControl::build_press_command(Key::System(SystemKey::Enter), Some(120), Some(15)).unwrap(),
        ".press(enter,120,15)\r\n"
    );
    assert_eq!(KeyboardControl::build_disable_command(vec![]), ".disable()\r\n");
    assert_eq!(
        KeyboardControl::build_disable_command(vec![Key::Letter('w'), Key::System(SystemKey::Tab), Key::Function(1)]),
        ".disable(w,tab,f1)\r\n"
    );
}

#[test]
fn string_command_limit() {
    let ok = "x".repeat(256);
    assert_eq!(KeyboardControl::build_string_command(&ok).unwrap(), format!(".string({})\r\n", ok));
    let long = "x".repeat(257);
    assert_eq!(
        KeyboardControl::build_string_command(&long),
        Err(MakcuError::InvalidParameter("字符串长度不能超过256个字符".to_string()))
    );
    assert_eq!(KeyboardControl::build_string_command("hi there").unwrap(), ".string(hi there)\r\n");
}

#[test]
fn key_names() {
    assert_eq!(KeyboardControl::key_to_string(Key::Letter('é')), "é");
    assert_eq!(KeyboardControl::system_key_to_string(SystemKey::NumLock), "numlock");
    assert_eq!(KeyboardControl::modifier_key_to_string(ModifierKey::RightShift), "shift");
}

#[test]
fn led_commands() {
    assert_eq!(LedControl::build_query_command(LedTarget::Host), ".led(2)\r\n");
    assert_eq!(LedControl::build_set_command(LedTarget::Device, LedMode::FastBlink), ".led(1,3)\r\n");
    assert_eq!(LedControl::build_blink_command(LedTarget::Device, 3, 200).unwrap(), ".led(1,3,200)\r\n");
    assert_eq!(
        LedControl::build_blink_command(LedTarget::Device, 0, 200),
        Err(MakcuError::InvalidParameter("闪烁次数必须大于0".to_string()))
    );
    assert_eq!(
        LedControl::build_blink_command(LedTarget::Host, 2, 5001),
        Err(MakcuError::InvalidParameter("延迟不能超过5000ms".to_string()))
    );
}

#[test]
fn led_responses() {
    assert_eq!(
        LedControl::parse_response("  km.led(device, on)\r\n"),
        Some(LedState { target: LedTarget::Device, mode: LedMode::On })
    );
    assert_eq!(
        LedControl::parse_response("km.km.led(2,slow_blink)"),
        Some(LedState { target: LedTarget::Host, mode: LedMode::SlowBlink })
    );
    assert_eq!(LedControl::parse_response("led(1,3)"), Some(LedState { target: LedTarget::Device, mode: LedMode::FastBlink }));
    assert_eq!(LedControl::parse_response("led(3,1)"), None);
    assert_eq!(LedControl::parse_response("led(1,2,3)"), None);
    assert_eq!(LedControl::parse_response("led(1)"), None);
    assert_eq!(LedControl::parse_response("led()"), None);
    assert_eq!(LedControl::parse_response("mled(1,1)"), None);
    assert_eq!(LedControl::parse_response("led(host,off"), None);
}

#[test]
fn config_builders() {
    let c = MakcuConfig::new("/dev/ttyACM0").with_baud_rate(4_000_000).with_timeout(250).with_screen_size(2560, 1440);
    assert_eq!(c.port_name, "/dev/ttyACM0");
    assert_eq!(c.baud_rate, 4_000_000);
    assert_eq!(c.timeout_ms, 250);
    assert_eq!((c.screen_width, c.screen_height), (2560, 1440));
    assert_eq!(c.timeout_duration(), Duration::from_millis(250));
    let d = MakcuConfig::default();
    assert_eq!((d.port_name.as_str(), d.baud_rate, d.timeout_ms), ("COM3", 115200, 100));
}

#[test]
fn error_messages() {
    assert_eq!(MakcuError::TimeoutError.message(), "操作超时");
    assert_eq!(MakcuError::SerialPortError("COM9".to_string()).message(), "串口错误: COM9");
    assert_eq!(MakcuError::CommandFailed("x".to_string()).message(), "命令执行失败: x");
}

#[test]
fn frame_layout() {
    let f = encode_frame(EventType::Keyboard, key_down_payload(0x04, 0x02), 0x1234);
    assert_eq!(f, vec![0xAA, 0x01, 0x04, 0x00, 0x02, 0, 0, 0, 0x34, 0x12, 0x55]);
    assert_eq!(encode_frame(EventType::System, heartbeat_payload(), 0)[..4], [0xAA, 0x04, 0xFF, 0x00]);
    assert_eq!(switch_identity_payload(3), [0x10, 3, 0, 0, 0, 0]);
    assert_eq!(key_up_payload(), [0, 0x80, 0, 0, 0, 0]);
    assert_eq!(mouse_down_payload(true, true), [3, 0, 0, 0, 0, 0]);
}

#[test]
fn absolute_payload_is_clamped() {
    assert_eq!(mouse_abs_payload(0, 40000), [0, 0, 10, 0, 0xF5, 0x7F]);
    assert_eq!(mouse_abs_payload(0x1234, 500), [0, 0, 0x34, 0x12, 0xF4, 0x01]);
}

#[test]
fn relative_moves_split_into_small_steps() {
    let p = relative_move_payloads(300, -10, 0);
    assert_eq!(p, vec![[0, 0, 127, 0, 0xF6, 0xFF], [0, 0, 127, 0, 0, 0], [0, 0, 46, 0, 0, 0]]);
    let w = relative_move_payloads(0, 0, -1);
    assert_eq!(w, vec![[0, 0xFF, 0, 0, 0, 0]]);
    assert!(relative_move_payloads(0, 0, 0).is_empty());
}

#[test]
fn hid_codes() {
    assert_eq!(char_to_keycode('a'), 0x04);
    assert_eq!(char_to_keycode('Z'), 0x1D);
    assert_eq!(char_to_keycode('1'), 0x1E);
    assert_eq!(char_to_keycode('0'), 0x27);
    assert_eq!(char_to_keycode(' '), 0x2C);
    assert_eq!(get_hid_code('?'), 0);
}

#[test]
fn device_setting_commands() {
    assert_eq!(SystemControl::build_serial_command(None), ".serial()\r\n");
    assert_eq!(SystemControl::build_serial_command(Some("ABC")), ".serial(ABC)\r\n");
    assert_eq!(SystemControl::build_log_command(Some(3)), ".log(3)\r\n");
    assert_eq!(SystemControl::build_echo_command(Some(false)), ".echo(0)\r\n");
    assert_eq!(SystemControl::build_baud_command(Some(4000000)), ".baud(4000000)\r\n");
    assert_eq!(SystemControl::build_bypass_command(None), ".bypass()\r\n");
    assert_eq!(SystemControl::build_hs_command(Some(true)), ".hs(1)\r\n");
    assert_eq!(SystemControl::build_release_command(Some(500)), ".release(500)\r\n");
    assert_eq!(SystemControl::build_plain_command("version"), ".version()\r\n");
    assert_eq!(SystemControl::build_stream_mouse_command(1, 20), ".mouse(1,20)\r\n");
    assert_eq!(SystemControl::build_stream_keyboard_command(2, 0), ".keyboard(2,0)\r\n");
}

#[test]
fn response_framing() {
    assert_eq!(SystemControl::complete_response("km.version(3.2)\r\n>>>\r\n"), Some("km.version(3.2)\r\n".to_string()));
    assert_eq!(SystemControl::complete_response("ok>>>\n>>>\n"), Some("ok".to_string()));
    assert_eq!(SystemControl::complete_response("x>>>\n>>>\r\n"), Some("x".to_string()));
    assert_eq!(SystemControl::complete_response("partial>>"), None);
    assert_eq!(SystemControl::complete_response(""), None);
}
