use chirp_relay::protocol::{
    decimal, frame, get_user_data_frame, image_updated_frame, message_frame, name_updated_frame,
    new_user_message_frame, split_frame, update_user_id_frame,
};

#[test]
fn frame_joins_command_and_payload_with_one_space() {
    assert_eq!(frame("/message", "hi there"), "/message hi there");
    assert_eq!(frame("/message", ""), "/message ");
}

#[test]
fn decimal_of_zero_is_a_single_digit() {
    assert_eq!(decimal(0), "0");
}

#[test]
fn decimal_of_single_digits() {
    assert_eq!(decimal(7), "7");
    assert_eq!(decimal(9), "9");
}

#[test]
fn decimal_keeps_inner_and_trailing_zeros() {
    assert_eq!(decimal(10), "10");
    assert_eq!(decimal(200), "200");
    assert_eq!(decimal(1005), "1005");
}

#[test]
fn decimal_of_the_largest_user_id() {
    assert_eq!(decimal(2_147_483_647), "2147483647");
}

#[test]
fn decimal_agrees_with_the_standard_formatting() {
    for n in [1usize, 12, 123, 99, 100, 101, 65_535, 4_294_967_295] {
        assert_eq!(decimal(n), format!("{}", n));
    }
}

#[test]
fn message_frame_text() {
    assert_eq!(message_frame("hi"), "/message hi");
}

#[test]
fn new_user_message_frame_carries_the_introduction_as_it_is() {
    assert_eq!(
        new_user_message_frame("{\"user_id\":100,\"message\":\"hi\"}"),
        "/new-user-message {\"user_id\":100,\"message\":\"hi\"}"
    );
}

#[test]
fn update_user_id_frame_text() {
    assert_eq!(update_user_id_frame(200), "/update-user-id 200");
}

#[test]
fn get_user_data_frame_text() {
    assert_eq!(get_user_data_frame("{\"name\":\"A\"}"), "/get-user-data {\"name\":\"A\"}");
}

#[test]
fn name_updated_frame_text() {
    assert_eq!(name_updated_frame("New Name"), "/name-updated New Name");
}

#[test]
fn image_updated_frame_text() {
    assert_eq!(image_updated_frame("https://x/y.png"), "/image-updated https://x/y.png");
}

#[test]
fn split_frame_parts_at_the_first_space() {
    assert_eq!(split_frame("/message hi there"), ("/message", Some("hi there")));
}

#[test]
fn split_frame_without_space_has_no_payload() {
    assert_eq!(split_frame("/ping"), ("/ping", None));
    assert_eq!(split_frame(""), ("", None));
}

#[test]
fn split_frame_with_empty_payload() {
    assert_eq!(split_frame("/message "), ("/message", Some("")));
}

#[test]
fn split_frame_with_leading_space_has_empty_command() {
    assert_eq!(split_frame(" x y"), ("", Some("x y")));
}

#[test]
fn split_frame_counts_characters_not_bytes() {
    assert_eq!(
        split_frame("/n\u{e9}m \u{fc}ber alles"),
        ("/n\u{e9}m", Some("\u{fc}ber alles"))
    );
}

#[test]
fn split_frame_undoes_frame() {
    let text = frame("/name-updated", "New Name");
    assert_eq!(split_frame(&text), ("/name-updated", Some("New Name")));
    let text = update_user_id_frame(200);
    assert_eq!(split_frame(&text), ("/update-user-id", Some("200")));
}
