use bakery::protocol::{
    auth_token, chat_server, checked_auth_token, checked_youtube_reply, config_is_complete, decode_packet, poster_name, read_message, youtube_reply, youtube_url,
    Chat, Config,
};

fn strings(v: &[&str]) -> Vec<String> {
    v.iter().map(|s| s.to_string()).collect()
}

#[test]
fn frames_end_by_login_state() {
    let mut chat = Chat::new("room".to_string());
    assert_eq!(chat.chat_send(&strings(&["msgbg", "1"])), "msgbg:1\0");
    chat.byteready = true;
    assert_eq!(chat.chat_send(&strings(&["msgbg", "1"])), "msgbg:1\r\n\0");
}

#[test]
fn chat_login_frame() {
    let mut chat = Chat::new("room".to_string());
    let f = chat.chat_login("me", "pw");
    assert!(chat.byteready);
    assert!(f.ends_with('\0') && !f.ends_with("\r\n\0"));
    let fields: Vec<&str> = f.trim_end_matches('\0').split(':').collect();
    assert_eq!(fields.len(), 5);
    assert_eq!(fields[0], "bauth");
    assert_eq!(fields[1], "room");
    assert_eq!(fields[2].len(), 16);
    let id: u128 = fields[2].parse().unwrap();
    assert!((1_000_000_000_000_000..10_000_000_000_000_000).contains(&id));
    assert_eq!(fields[3], "me");
    assert_eq!(fields[4], "pw");
}

#[test]
fn pm_login_frame() {
    assert_eq!(Chat::pm_login("TOKEN"), "tlogin:TOKEN:2\0");
}

#[test]
fn servers_by_chat_kind() {
    assert_eq!(chat_server(&"khmerpeace".to_string(), "chat"), "s59.chatango.com:443");
    assert_eq!(chat_server(&"_pm".to_string(), "pm"), "c1.chatango.com:5222");
}

#[test]
fn token_from_third_cookie() {
    let cookies = strings(&["a=1;", "b=2;", "id.chatango.com=me; auth.chatango.com=tok123; Path=/"]);
    assert_eq!(auth_token(&cookies), "tok123");
    assert_eq!(checked_auth_token(&cookies), Some("tok123".to_string()));
    let none = strings(&["a", "b", "nothing here"]);
    assert_eq!(checked_auth_token(&none), None);
    assert_eq!(checked_auth_token(&strings(&["auth.chatango.com=x;"])), None);
}

#[test]
fn config_fields() {
    let c = Config::new("  me:pw:key:room1 room2:mod1:locked1 locked2 \n");
    assert_eq!(c.username, "me");
    assert_eq!(c.password, "pw");
    assert_eq!(c.api_key, "key");
    assert_eq!(c.room_list, vec!["room1", "room2"]);
    assert_eq!(c.mods, vec!["mod1"]);
    assert_eq!(c.locked_rooms, vec!["locked1", "locked2"]);
    let empty = Config::new("me:pw:key:room:::extra");
    assert_eq!(empty.mods, vec![""]);
    assert_eq!(empty.locked_rooms, vec![""]);
}

#[test]
fn config_needs_six_fields() {
    assert!(!config_is_complete("me:pw:key:room:mods"));
    assert!(!config_is_complete(""));
    assert!(config_is_complete(" a:b:c:d:e:f "));
}

#[test]
fn packet_frames() {
    let frames = decode_packet(b"inited\r\n\0b:1:u: x \r\n\0");
    assert_eq!(frames, vec![vec!["inited"], vec!["b", "1", "u", " x"], vec![""]]);
    let lossy = decode_packet(b"a\xffb:c");
    assert_eq!(lossy, vec![vec!["a\u{fffd}b", "c"]]);
}

#[test]
fn poster_names() {
    assert_eq!(poster_name("bob", "x"), "bob");
    assert_eq!(poster_name("", "alias"), "alias");
    assert_eq!(poster_name("None", "alias"), "alias");
    assert_eq!(poster_name("", ""), "None");
    assert_eq!(poster_name("", "None"), "None");
}

#[test]
fn message_fields_and_text() {
    let data = strings(&[
        "1700000000.1", "bob", "", "uid", "cid", "sid", "1.2.3.4", "x", "y",
        "<n000/><f x12000=\"0\">hi &amp; ", "bye</f>",
    ]);
    let m = read_message(&data, "room").unwrap();
    assert_eq!(m.user, "bob");
    assert_eq!(m.time, "1700000000.1");
    assert_eq!(m.uid, "uid");
    assert_eq!(m.cid, "cid");
    assert_eq!(m.sid, "sid");
    assert_eq!(m.ip, "1.2.3.4");
    assert_eq!(m.content, "hi & bye");
    assert_eq!(m.chat, "room");
}

#[test]
fn message_with_empty_text() {
    let data = strings(&["t", "", "anon", "u", "c", "s", "i", "x", "y"]);
    let m = read_message(&data, "room").unwrap();
    assert_eq!(m.user, "anon");
    assert_eq!(m.content, "");
}

#[test]
fn youtube_search_and_reply() {
    assert_eq!(
        youtube_url("KEY", "cats"),
        "https://www.googleapis.com/youtube/v3/search?q=cats&key=KEY&type=video&maxResults=1&part=snippet"
    );
    let body = r#"{"items":[{"id":{"videoId":"abc123"},"snippet":{"title":"Cats"}}]}"#;
    assert_eq!(
        youtube_reply(body),
        "https://www.youtube.com/watch?v=abc123\r\r\r\rVideo title [<b>Cats</b>]"
    );
    assert_eq!(
        checked_youtube_reply(body),
        Some("https://www.youtube.com/watch?v=abc123\r\r\r\rVideo title [<b>Cats</b>]".to_string())
    );
    assert_eq!(youtube_reply(r#"{"items":[]}"#), "No video found.");
    assert_eq!(checked_youtube_reply(r#"{"items":[{"id":{"videoId":"abc"}}]}"#), None);
    assert_eq!(checked_youtube_reply("not json"), None);
}

#[test]
fn a_written_frame_reads_back_as_its_fields() {
    let mut chat = Chat::new("room".to_string());
    let fields = strings(&["bm", "x", "2048", "hello world"]);
    for ready in [false, true] {
        chat.byteready = ready;
        let f = chat.chat_send(&fields);
        let back = decode_packet(f.as_bytes());
        assert_eq!(back, vec![fields.clone(), vec!["".to_string()]]);
    }
}
