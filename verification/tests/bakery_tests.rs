use bakery::bakery::{Action, Bakery};
use bakery::protocol::Config;

fn start() -> (Bakery, Vec<Action>) {
    let config = Config::new("me:pw:key:room1 room2:mod1:locked1");
    Bakery::oven(config)
}

fn post_frame(text: &str) -> String {
    format!("bm:fuck:2048:<nC7A793/><f x10F7DCCE=\"0\">{}</f>\r\n\0\r\n\0", text)
}

fn frame_from(user: &str, text: &str) -> Vec<String> {
    let mut v: Vec<String> = ["b", "1700000000.1", user, "", "uid", "cid", "sid", "ip", "x", "y"]
        .iter()
        .map(|s| s.to_string())
        .collect();
    v.push(text.to_string());
    v
}

fn sends(actions: &[Action]) -> Vec<(usize, String)> {
    actions
        .iter()
        .filter_map(|a| match a {
            Action::Send { conn, data } => Some((*conn, data.clone())),
            _ => None,
        })
        .collect()
}

#[test]
fn oven_opens_rooms_then_private_messages() {
    let (b, actions) = start();
    assert_eq!(b.connections.len(), 3);
    assert_eq!(b.connections[0].name, "room1");
    assert!(b.connections[0].byteready);
    assert_eq!(b.connections[2].name, "_pm");
    assert!(!b.connections[2].byteready);
    assert_eq!(b.current_chat, "None");
    assert_eq!(b.to_send_room, "None");
    assert_eq!(b.font_size, 10);
    assert_eq!(actions.len(), 3);
    match &actions[1] {
        Action::Open { conn, login } => {
            assert_eq!(*conn, 1);
            assert!(login.starts_with("bauth:room2:"));
            assert!(login.ends_with(":me:pw\0"));
        }
        _ => panic!("expected an open"),
    }
    assert!(matches!(actions[2], Action::OpenPm { conn: 2 }));
}

#[test]
fn say_posts_in_the_current_chat() {
    let (mut b, _) = start();
    let acts = b.events("room1", &frame_from("bob", "$say hello world")).unwrap();
    assert_eq!(b.current_chat, "room1");
    assert_eq!(sends(&acts), vec![(0, post_frame("hello world"))]);
}

#[test]
fn command_word_is_read_in_lower_case() {
    let (mut b, _) = start();
    let acts = b.events("room2", &frame_from("bob", "$SAY hi")).unwrap();
    assert_eq!(sends(&acts), vec![(1, post_frame("hi"))]);
}

#[test]
fn unknown_command() {
    let (mut b, _) = start();
    let acts = b.events("room1", &frame_from("bob", "$dance")).unwrap();
    assert_eq!(sends(&acts), vec![(0, post_frame("Unknown command"))]);
}

#[test]
fn plain_messages_are_not_commands() {
    let (mut b, _) = start();
    let acts = b.events("room1", &frame_from("bob", "say hi")).unwrap();
    assert!(acts.is_empty());
}

#[test]
fn relay_needs_a_moderator() {
    let (mut b, _) = start();
    let acts = b.events("room1", &frame_from("bob", "$send room2 hi")).unwrap();
    assert_eq!(
        sends(&acts),
        vec![(0, post_frame("You do not have permission to use this command."))]
    );
    let acts = b.events("room1", &frame_from("bob", "$join room3")).unwrap();
    assert_eq!(b.connections.len(), 3);
    assert_eq!(sends(&acts).len(), 1);
}

#[test]
fn moderator_relays_to_another_chat() {
    let (mut b, _) = start();
    let acts = b.events("room1", &frame_from("mod1", "$send room2 hello there")).unwrap();
    assert_eq!(
        sends(&acts),
        vec![(1, post_frame("hello there")), (0, post_frame("Done."))]
    );
    assert_eq!(b.to_send_room, "None");
}

#[test]
fn relay_to_a_chat_the_bot_is_not_in() {
    let (mut b, _) = start();
    let acts = b.events("room1", &frame_from("mod1", "$send nowhere hi")).unwrap();
    assert_eq!(sends(&acts), vec![(0, post_frame("I am not in that chat."))]);
    assert_eq!(b.to_send_room, "None");
}

#[test]
fn moderator_joins_a_chat() {
    let (mut b, _) = start();
    let acts = b.events("room1", &frame_from("mod1", "$join room3")).unwrap();
    assert_eq!(b.connections.len(), 4);
    assert_eq!(b.connections[3].name, "room3");
    assert!(b.connections[3].byteready);
    match &acts[0] {
        Action::Open { conn, login } => {
            assert_eq!(*conn, 3);
            assert!(login.starts_with("bauth:room3:"));
        }
        _ => panic!("expected an open"),
    }
    assert_eq!(sends(&acts), vec![(0, post_frame("Done."))]);
}

#[test]
fn locked_chats_take_no_commands() {
    let (mut b, _) = start();
    let acts = b.events("locked1", &frame_from("mod1", "$say hi")).unwrap();
    assert!(acts.is_empty());
}

#[test]
fn mentions_of_the_owner_are_shown() {
    let (mut b, _) = start();
    let acts = b.events("room1", &frame_from("bob", "hey HERENTI")).unwrap();
    assert_eq!(acts.len(), 1);
    match &acts[0] {
        Action::Mention { chat, user, content } => {
            assert_eq!(chat, "room1");
            assert_eq!(user, "bob");
            assert_eq!(content, "hey HERENTI");
        }
        _ => panic!("expected a mention"),
    }
    let mut hist = frame_from("bob", "herenti was here");
    hist[0] = "i".to_string();
    let acts = b.events("room2", &hist).unwrap();
    assert!(matches!(acts[0], Action::Mention { .. }));
    let mut quiet = frame_from("bob", "$say hi");
    quiet[0] = "i".to_string();
    assert!(b.events("room2", &quiet).unwrap().is_empty());
}

#[test]
fn logged_in_chat_sends_its_requests() {
    let (mut b, _) = start();
    let acts = b.events("room2", &vec!["inited".to_string()]).unwrap();
    assert_eq!(
        sends(&acts),
        vec![
            (1, "getpremium:1\r\n\0".to_string()),
            (1, "g_participants:start\r\n\0".to_string()),
            (1, "getbannedwords\r\n\0".to_string()),
            (1, "msgbg:1\r\n\0".to_string()),
        ]
    );
    assert!(matches!(&acts[4], Action::LoggedIn { chat } if chat == "room2"));
}

#[test]
fn other_events_only_change_the_current_chat() {
    let (mut b, _) = start();
    let acts = b.events("room2", &vec!["n".to_string(), "3".to_string()]).unwrap();
    assert!(acts.is_empty());
    assert_eq!(b.current_chat, "room2");
}

#[test]
fn youtube_and_rainbow_requests() {
    let (mut b, _) = start();
    let acts = b.events("room1", &frame_from("bob", "$yt cute cats")).unwrap();
    assert!(matches!(&acts[0], Action::YouTube { url }
        if url == "https://www.googleapis.com/youtube/v3/search?q=cute cats&key=key&type=video&maxResults=1&part=snippet"));
    let acts = b.events("room1", &frame_from("bob", "$rainbow hello")).unwrap();
    assert!(matches!(&acts[0], Action::Rainbow { text, size, room: None } if text == "hello" && size == "12"));
    let acts = b.events("room1", &frame_from("mod1", "$rsend room2 hello you")).unwrap();
    assert!(matches!(&acts[0], Action::Rainbow { text, size, room: Some(r) }
        if text == "hello you" && size == "12" && r == "room2"));
}

#[test]
fn rainbow_text_is_posted_or_refused_by_length() {
    let (mut b, _) = start();
    b.current_chat = "room1".to_string();
    assert_eq!(sends(&b.rainbow_done("colours", None)), vec![(0, post_frame("colours"))]);
    let long = "é".repeat(1246);
    assert_eq!(
        sends(&b.rainbow_done(&long, None)),
        vec![(0, post_frame("That message is too long for chatango."))]
    );
    let edge = "a".repeat(2490);
    assert_eq!(sends(&b.rainbow_done(&edge, None)), vec![(0, post_frame(&edge))]);
    let acts = b.rainbow_done("colours", Some("room2".to_string()));
    assert_eq!(sends(&acts), vec![(1, post_frame("colours")), (0, post_frame("Done."))]);
}

#[test]
fn posts_use_the_font_settings() {
    let (mut b, _) = start();
    b.current_chat = "room2".to_string();
    b.font_size = -3;
    assert_eq!(
        sends(&b.chat_post("x")),
        vec![(1, "bm:fuck:2048:<nC7A793/><f x-3F7DCCE=\"0\">x</f>\r\n\0\r\n\0".to_string())]
    );
}
