use bakery::server::{g_server, group_is_valid};

#[test]
fn server_of_short_names() {
    assert_eq!(g_server("a".to_string()), "s5.chatango.com:443");
    assert_eq!(g_server("xyz".to_string()), "s7.chatango.com:443");
    assert_eq!(g_server("zzzzz".to_string()), "s23.chatango.com:443");
}

#[test]
fn server_of_long_names() {
    assert_eq!(g_server("khmerpeace".to_string()), "s59.chatango.com:443");
    assert_eq!(g_server("monstergirlsworld".to_string()), "s63.chatango.com:443");
    assert_eq!(g_server("abcdefghijk".to_string()), "s78.chatango.com:443");
}

#[test]
fn server_reads_dash_and_underscore_as_q() {
    assert_eq!(g_server("nico-nico".to_string()), "s29.chatango.com:443");
    assert_eq!(g_server("nico_nico".to_string()), "s29.chatango.com:443");
    assert_eq!(g_server("nicoqnico".to_string()), "s29.chatango.com:443");
    assert_eq!(g_server("chat_room_1".to_string()), "s31.chatango.com:443");
}

#[test]
fn server_ignores_letter_case_and_plus_sign() {
    assert_eq!(g_server("ZZZZZ".to_string()), "s23.chatango.com:443");
    assert_eq!(g_server("+abc".to_string()), "s38.chatango.com:443");
}

#[test]
fn server_of_divisor_equal_to_dividend_is_first() {
    // 7034 % 7034 == 0: the fraction is zero, the first slot reaches it.
    assert_eq!(g_server("005fex5fe".to_string()), "s5.chatango.com:443");
}

#[test]
fn group_validity() {
    assert!(group_is_valid("a"));
    assert!(group_is_valid("nico-nico"));
    assert!(group_is_valid("+abc"));
    assert!(!group_is_valid(""));
    assert!(!group_is_valid("+"));
    assert!(!group_is_valid("ab+cd"));
    assert!(!group_is_valid("ab.cd"));
    // the sixth byte is never read, but the name is cut after it
    assert!(group_is_valid("abcde.fgh"));
    assert!(!group_is_valid("abcdeéfgh"));
    // bytes after the ninth are never read
    assert!(group_is_valid("abcdefghiéé"));
    assert!(!group_is_valid("abcdefg!i"));
}

#[test]
fn server_on_an_exact_boundary_takes_the_slot_it_reaches() {
    // 375 / 7034 is exactly the share of the first five slots.
    assert_eq!(g_server("000afx5fe".to_string()), "s16.chatango.com:443");
}

#[test]
fn server_ignores_letter_case() {
    assert_eq!(g_server("KHMERPEACE".to_string()), g_server("khmerpeace".to_string()));
    assert_eq!(g_server("Nico-Nico".to_string()), g_server("nico-nico".to_string()));
}

#[test]
fn server_ignores_the_sixth_and_the_tenth_on() {
    assert_eq!(g_server("khmerpeace".to_string()), g_server("khmerpeac".to_string()));
    assert_eq!(g_server("abcdeXghi".to_string()), g_server("abcdeYghi".to_string()));
    assert_eq!(g_server("abcdeX".to_string()), g_server("abcde".to_string()));
}

#[test]
fn server_treats_dash_underscore_and_q_alike() {
    assert_eq!(g_server("a-b_c-d_e".to_string()), g_server("aqbqcqdqe".to_string()));
}
