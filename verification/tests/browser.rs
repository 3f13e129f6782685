use picc::iframe_inject::{
    applescript_for, click_button_script, escape_for_applescript, fill_email_script,
    fill_password_script, script_result,
};

#[test]
fn scripts_are_escaped_for_applescript() {
    assert_eq!(escape_for_applescript("a\\b\"c\nd"), "a\\\\b\\\"c d");
    assert_eq!(escape_for_applescript("plain"), "plain");
}

#[test]
fn applescript_runs_the_script_in_safari() {
    assert_eq!(
        applescript_for("alert(\"x\")"),
        "tell application \"Safari\"\n    tell current tab of window 1\n        execute javascript \"alert(\\\"x\\\")\"\n    end tell\nend tell"
    );
}

#[test]
fn email_is_filled() {
    assert_eq!(
        fill_email_script("o'neil@example.com"),
        "document.querySelector('input[type=\"email\"]').value = 'o\\'neil@example.com'; document.querySelector('input[type=\"email\"]').dispatchEvent(new Event('input', { bubbles: true }))"
    );
}

#[test]
fn password_is_filled() {
    assert_eq!(
        fill_password_script("p'w"),
        "document.querySelector('input[type=\"password\"]').value = 'p\\'w'; document.querySelector('input[type=\"password\"]').dispatchEvent(new Event('input', { bubbles: true }))"
    );
}

#[test]
fn button_is_clicked() {
    assert_eq!(
        click_button_script("button[name='go']"),
        "document.querySelector('button[name=\\'go\\']').click();"
    );
}

#[test]
fn script_output_is_decoded() {
    assert_eq!(script_result(true, b"ok\n", b"err"), Ok("ok\n".to_string()));
    assert_eq!(script_result(false, b"ok", b"bad"), Err("bad".to_string()));
    assert_eq!(script_result(true, &[0x61, 0xff, 0x62], b""), Ok("a\u{fffd}b".to_string()));
}
