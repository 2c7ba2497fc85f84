//! The bot: the chats it is in, how it answers what it reads from them, and
//! the commands it takes.
//!
//! Reading and writing the network is left to the caller. Each operation
//! returns the actions to carry out, in order: frames to write to a chat,
//! chats to open, lines to show, and lookups whose result comes back
//! through `chat_post` (a YouTube search) or `rainbow_done` (rainbow text).

use vstd::prelude::*;
use crate::bindings::{lowercase, regex_compiles, to_lower};
use crate::protocol::{
    frame, is_bauth, message_text, poster, read_message, tag_pattern, youtube_query,
    youtube_url, Chat, Config, Message,
};
use crate::text::{
    after_first, append, before_first, begins_with, cut_first, has_piece, holds_piece,
    list_holds, owned, push_signed_decimal, remove_all, same_text, signed_decimal, views,
    without,
};
use crate::bindings::push_char;

verus! {

/// The owner of the bot: messages that mention this name are shown.
pub open spec fn bot_owner() -> Seq<char> {
    "herenti"@
}

/// Something for the caller to carry out.
pub enum Action {
    /// Write `data` to the chat at position `conn`.
    Send { conn: usize, data: String },
    /// Connect the new group chat at position `conn` and write `login` to it.
    Open { conn: usize, login: String },
    /// Connect the private-message chat at position `conn` and log it in.
    OpenPm { conn: usize },
    /// Show a message that mentions the owner.
    Mention { chat: String, user: String, content: String },
    /// Show that a chat has logged in.
    LoggedIn { chat: String },
    /// Fetch a YouTube search and post its reply (`youtube_reply`, then `chat_post`).
    YouTube { url: String },
    /// Colour `text` as a rainbow of font size `size` and hand it to
    /// `rainbow_done` with `room`.
    Rainbow { text: String, size: String, room: Option<String> },
}

/// The model of an action.
pub enum Act {
    Send(nat, Seq<char>),
    Open(nat, Seq<char>),
    OpenPm(nat),
    Mention(Seq<char>, Seq<char>, Seq<char>),
    LoggedIn(Seq<char>),
    YouTube(Seq<char>),
    Rainbow(Seq<char>, Seq<char>, Option<Seq<char>>),
}

impl View for Action {
    type V = Act;

    open spec fn view(&self) -> Act {
        match self {
            Action::Send { conn, data } => Act::Send(*conn as nat, data@),
            Action::Open { conn, login } => Act::Open(*conn as nat, login@),
            Action::OpenPm { conn } => Act::OpenPm(*conn as nat),
            Action::Mention { chat, user, content } => Act::Mention(chat@, user@, content@),
            Action::LoggedIn { chat } => Act::LoggedIn(chat@),
            Action::YouTube { url } => Act::YouTube(url@),
            Action::Rainbow { text, size, room } => Act::Rainbow(
                text@,
                size@,
                match room {
                    Some(r) => Some(r@),
                    None => None,
                },
            ),
        }
    }
}

/// The models of a list of actions.
pub open spec fn acts(v: Seq<Action>) -> Seq<Act> {
    v.map_values(|a: Action| a@)
}

/// The bot's state.
pub struct Bakery {
    pub connections: Vec<Chat>,
    /// The chat that the frame being handled came from.
    pub current_chat: String,
    /// While a message is relayed to another chat: that chat (`None` otherwise).
    pub to_send_room: String,
    pub username: String,
    pub password: String,
    pub font_color: String,
    pub name_color: String,
    pub font_size: i32,
    pub api_key: String,
    pub room_list: Vec<String>,
    pub mods: Vec<String>,
    pub locked_rooms: Vec<String>,
}

/// The model of the bot's state.
pub struct BakeryView {
    pub connections: Seq<(Seq<char>, bool)>,
    pub current_chat: Seq<char>,
    pub to_send_room: Seq<char>,
    pub username: Seq<char>,
    pub password: Seq<char>,
    pub font_color: Seq<char>,
    pub name_color: Seq<char>,
    pub font_size: int,
    pub api_key: Seq<char>,
    pub room_list: Seq<Seq<char>>,
    pub mods: Seq<Seq<char>>,
    pub locked_rooms: Seq<Seq<char>>,
}

/// The models of a list of chats: name and whether it has logged in.
pub open spec fn chat_views(v: Seq<Chat>) -> Seq<(Seq<char>, bool)> {
    v.map_values(|c: Chat| (c.name@, c.byteready))
}

impl View for Bakery {
    type V = BakeryView;

    open spec fn view(&self) -> BakeryView {
        BakeryView {
            connections: chat_views(self.connections@),
            current_chat: self.current_chat@,
            to_send_room: self.to_send_room@,
            username: self.username@,
            password: self.password@,
            font_color: self.font_color@,
            name_color: self.name_color@,
            font_size: self.font_size as int,
            api_key: self.api_key@,
            room_list: views(self.room_list@),
            mods: views(self.mods@),
            locked_rooms: views(self.locked_rooms@),
        }
    }
}

// ---------------------------------------------------------------------------
// Model of posting
// ---------------------------------------------------------------------------

/// A `Send` of the frame of `data` to each chat named `room`, in order.
pub open spec fn sends_to(conns: Seq<(Seq<char>, bool)>, room: Seq<char>, data: Seq<Seq<char>>) -> Seq<Act>
    decreases conns.len(),
{
    if conns.len() == 0 {
        Seq::empty()
    } else {
        let n = (conns.len() - 1) as nat;
        sends_to(conns.drop_last(), room, data) + if conns.last().0 == room {
            seq![Act::Send(n, frame(data, conns.last().1))]
        } else {
            Seq::empty()
        }
    }
}

/// The chat that posts go to: the relay target while there is one, else
/// the current chat.
pub open spec fn post_room(b: BakeryView) -> Seq<char> {
    if b.to_send_room != "None"@ {
        b.to_send_room
    } else {
        b.current_chat
    }
}

/// The markup of a posted message: name colour, font size and colour, text.
pub open spec fn post_markup(b: BakeryView, args: Seq<char>) -> Seq<char> {
    "<n"@ + b.name_color + "/><f x"@ + signed_decimal(b.font_size) + b.font_color + "=\"0\">"@
        + args + "</f>\r\n"@ + seq!['\0']
}

/// The fields of a post frame.
pub open spec fn post_fields(b: BakeryView, args: Seq<char>) -> Seq<Seq<char>> {
    seq!["bm"@, "fuck"@, "2048"@, post_markup(b, args)]
}

/// Posting `args`: one frame to each chat named as the post room.
pub open spec fn post_acts(b: BakeryView, args: Seq<char>) -> Seq<Act> {
    sends_to(b.connections, post_room(b), post_fields(b, args))
}

/// Whether the bot is in a chat named `room`.
pub open spec fn has_chat(b: BakeryView, room: Seq<char>) -> bool {
    exists|i: int| 0 <= i < b.connections.len() && #[trigger] b.connections[i].0 == room
}

/// Relaying `args` to `room`: the post goes there, then `Done.` is posted
/// here; or, when the bot is not in that chat, `I am not in that chat.` is
/// posted here. Either way no relay target is left.
pub open spec fn relay(b: BakeryView, room: Seq<char>, args: Seq<char>) -> (BakeryView, Seq<Act>) {
    let target = if has_chat(b, room) { room } else { b.to_send_room };
    let b1 = BakeryView { to_send_room: target, ..b };
    let b2 = BakeryView { to_send_room: "None"@, ..b };
    if target != "None"@ {
        (b2, post_acts(b1, args) + post_acts(b2, "Done."@))
    } else {
        (b1, post_acts(b1, "I am not in that chat."@))
    }
}


/// The answer to a user without moderator rights.
pub open spec fn no_permission() -> Seq<char> {
    "You do not have permission to use this command."@
}

/// Whether a command from `user` joins a chat (and so opens one).
pub open spec fn joins(b: BakeryView, user: Seq<char>, command: Seq<char>) -> bool {
    command == "join"@ && b.mods.contains(user)
}

/// Carrying out `command` with `args` for `user`. `login` is the login frame
/// of a chat that `join` opens.
pub open spec fn command_result(
    b: BakeryView,
    user: Seq<char>,
    command: Seq<char>,
    args: Seq<char>,
    login: Seq<char>,
) -> (BakeryView, Seq<Act>) {
    let ismod = b.mods.contains(user);
    if command == "say"@ {
        (b, post_acts(b, args))
    } else if command == "yt"@ {
        (b, seq![Act::YouTube(youtube_query(b.api_key, args))])
    } else if command == "rainbow"@ {
        (b, seq![Act::Rainbow(args, "12"@, None)])
    } else if command == "send"@ {
        if ismod {
            relay(b, before_first(args, ' '), after_first(args, ' '))
        } else {
            (b, post_acts(b, no_permission()))
        }
    } else if command == "join"@ {
        if ismod {
            let b1 = BakeryView { connections: b.connections.push((args, true)), ..b };
            (b1, seq![Act::Open(b.connections.len(), login)] + post_acts(b1, "Done."@))
        } else {
            (b, post_acts(b, no_permission()))
        }
    } else if command == "rsend"@ {
        if ismod {
            (b, seq![Act::Rainbow(after_first(args, ' '), "12"@, Some(before_first(args, ' ')))])
        } else {
            (b, post_acts(b, no_permission()))
        }
    } else {
        (b, post_acts(b, "Unknown command"@))
    }
}

/// Showing a message that mentions the owner.
pub open spec fn mention_acts(user: Seq<char>, content: Seq<char>, chat: Seq<char>) -> Seq<Act> {
    if has_piece(lowercase(content), bot_owner()) {
        seq![Act::Mention(chat, user, content)]
    } else {
        Seq::empty()
    }
}

/// The command word of a message: before the first space, without `$`,
/// in lower case.
pub open spec fn command_word(content: Seq<char>) -> Seq<char> {
    lowercase(without(before_first(content, ' '), '$'))
}

/// Whether a message is a command the bot takes: it starts with `$` and
/// was not posted in a locked chat.
pub open spec fn takes_command(b: BakeryView, content: Seq<char>, chat: Seq<char>) -> bool {
    !b.locked_rooms.contains(chat) && begins_with(content, "$"@)
}

/// Handling a posted message: show it when it mentions the owner, then
/// carry out its command, if it is one.
pub open spec fn post_result(
    b: BakeryView,
    user: Seq<char>,
    content: Seq<char>,
    chat: Seq<char>,
    login: Seq<char>,
) -> (BakeryView, Seq<Act>) {
    let shown = mention_acts(user, content, chat);
    if takes_command(b, content, chat) {
        let (b1, a) = command_result(b, user, command_word(content), after_first(content, ' '), login);
        (b1, shown + a)
    } else {
        (b, shown)
    }
}

/// The frames sent once a chat has logged in, then the line that says so.
pub open spec fn inited_acts(b: BakeryView) -> Seq<Act> {
    sends_to(b.connections, b.current_chat, seq!["getpremium"@, "1"@])
        + sends_to(b.connections, b.current_chat, seq!["g_participants"@, "start"@])
        + sends_to(b.connections, b.current_chat, seq!["getbannedwords"@])
        + sends_to(b.connections, b.current_chat, seq!["msgbg"@, "1"@])
        + seq![Act::LoggedIn(b.current_chat)]
}

/// The UTF-8 length of a text, in bytes.
pub open spec fn byte_len(s: Seq<char>) -> nat {
    vstd::utf8::encode_utf8(s).len()
}

/// The longest text, in bytes, that the bot posts as a rainbow.
pub open spec fn rainbow_limit() -> nat {
    2490
}

/// Posting rainbow text: here (no room) or relayed to `room`; a text longer
/// than the limit is replaced by a note that it is too long.
pub open spec fn rainbow_result(b: BakeryView, text: Seq<char>, room: Option<Seq<char>>) -> (BakeryView, Seq<Act>) {
    if byte_len(text) > rainbow_limit() {
        (b, post_acts(b, "That message is too long for chatango."@))
    } else {
        match room {
            None => (b, post_acts(b, text)),
            Some(r) => relay(b, r, text),
        }
    }
}


/// Handling frame `frame` (event name, then fields) read from chat
/// `chatname`: the chat becomes the current one, then `b` (a post) is
/// answered, `inited` (logged in) sends the start-up requests, `i` (history)
/// shows mentions of the owner; other events change nothing else. `None`
/// when the regex crate refuses the tag pattern that a message needs.
pub open spec fn event_result(
    b: BakeryView,
    chatname: Seq<char>,
    frame: Seq<Seq<char>>,
    login: Seq<char>,
) -> Option<(BakeryView, Seq<Act>)> {
    let b1 = BakeryView { current_chat: chatname, ..b };
    let ev = frame[0];
    let data = frame.drop_first();
    if ev == "b"@ {
        if regex_compiles(tag_pattern()) {
            Some(post_result(b1, poster(data[1], data[2]), message_text(data), chatname, login))
        } else {
            None
        }
    } else if ev == "inited"@ {
        Some((b1, inited_acts(b1)))
    } else if ev == "i"@ {
        if regex_compiles(tag_pattern()) {
            Some((b1, mention_acts(poster(data[1], data[2]), message_text(data), chatname)))
        } else {
            None
        }
    } else {
        Some((b1, Seq::empty()))
    }
}

/// Whether a posted message with fields `d` is a moderator's `join` command
/// that the bot takes in its current chat.
pub open spec fn posted_joins(b: BakeryView, d: Seq<Seq<char>>) -> bool {
    let content = message_text(d);
    takes_command(b, content, b.current_chat) && joins(b, poster(d[1], d[2]), command_word(content))
}

/// Whether handling a frame opens a chat (a moderator's `join` command).
pub open spec fn event_joins(b: BakeryView, chatname: Seq<char>, frame: Seq<Seq<char>>) -> bool {
    frame[0] == "b"@ && posted_joins(BakeryView { current_chat: chatname, ..b }, frame.drop_first())
}

/// The chat that a frame's `join` command opens.
pub open spec fn event_join_target(frame: Seq<Seq<char>>) -> Seq<char> {
    after_first(message_text(frame.drop_first()), ' ')
}

/// The bot as configured: in the configured rooms and the private-message
/// chat, with the default colours and font size.
pub open spec fn started(c: Config) -> BakeryView {
    BakeryView {
        connections: Seq::new(c.room_list@.len(), |i: int| (c.room_list@[i]@, true)).push(("_pm"@, false)),
        current_chat: "None"@,
        to_send_room: "None"@,
        username: c.username@,
        password: c.password@,
        font_color: "F7DCCE"@,
        name_color: "C7A793"@,
        font_size: 10,
        api_key: c.api_key@,
        room_list: views(c.room_list@),
        mods: views(c.mods@),
        locked_rooms: views(c.locked_rooms@),
    }
}

// ---------------------------------------------------------------------------
// Lemmas
// ---------------------------------------------------------------------------

proof fn lemma_sends_to_step(conns: Seq<(Seq<char>, bool)>, room: Seq<char>, data: Seq<Seq<char>>, i: int)
    requires
        0 <= i < conns.len(),
    ensures
        sends_to(conns.take(i + 1), room, data) == sends_to(conns.take(i), room, data) + if conns[i].0 == room {
            seq![Act::Send(i as nat, frame(data, conns[i].1))]
        } else {
            Seq::empty()
        },
{
    assert(conns.take(i + 1).drop_last() =~= conns.take(i));
}

// ---------------------------------------------------------------------------
// Executable functions
// ---------------------------------------------------------------------------

impl Bakery {
    /// The frame of `data` for each chat named `room`.
    fn send_all(&self, room: &str, data: &Vec<String>) -> (r: Vec<Action>)
        ensures
            acts(r@) == sends_to(self@.connections, room@, views(data@)),
    {
        let ghost conns = self@.connections;
        let mut out: Vec<Action> = Vec::new();
        let mut i: usize = 0;
        while i < self.connections.len()
            invariant
                conns == chat_views(self.connections@),
                i <= self.connections@.len(),
                acts(out@) == sends_to(conns.take(i as int), room@, views(data@)),
            decreases self.connections.len() - i,
        {
            proof { lemma_sends_to_step(conns, room@, views(data@), i as int); }
            let ghost before = out@;
            if same_text(self.connections[i].name.as_str(), room) {
                let f = self.connections[i].chat_send(data);
                out.push(Action::Send { conn: i, data: f });
                assert(acts(out@) =~= acts(before).push(Act::Send(i as nat, f@)));
            } else {
                assert(acts(out@) =~= acts(before) + Seq::<Act>::empty());
            }
            i += 1;
        }
        assert(conns.take(conns.len() as int) =~= conns);
        out
    }

    /// The frames that send `data` to the current chat.
    pub fn chat_send(&self, data: &Vec<String>) -> (r: Vec<Action>)
        ensures
            acts(r@) == sends_to(self@.connections, self@.current_chat, views(data@)),
    {
        self.send_all(self.current_chat.as_str(), data)
    }

    /// The frames that post `args` (see `post_acts`).
    pub fn chat_post(&self, args: &str) -> (r: Vec<Action>)
        ensures
            acts(r@) == post_acts(self@, args@),
    {
        let mut m = owned("<n");
        append(&mut m, self.name_color.as_str());
        append(&mut m, "/><f x");
        push_signed_decimal(&mut m, self.font_size);
        append(&mut m, self.font_color.as_str());
        append(&mut m, "=\"0\">");
        append(&mut m, args);
        append(&mut m, "</f>\r\n");
        push_char(&mut m, '\0');
        assert(m@ =~= post_markup(self@, args@));
        let mut data: Vec<String> = Vec::new();
        data.push(owned("bm"));
        data.push(owned("fuck"));
        data.push(owned("2048"));
        data.push(m);
        assert(views(data@) =~= post_fields(self@, args@));
        if same_text(self.to_send_room.as_str(), "None") {
            self.send_all(self.current_chat.as_str(), &data)
        } else {
            self.send_all(self.to_send_room.as_str(), &data)
        }
    }
}

/// Appends the actions of `more` to `out`.
fn then(out: &mut Vec<Action>, more: Vec<Action>)
    ensures
        acts(final(out)@) == acts(old(out)@) + acts(more@),
{
    let ghost given = more@;
    let mut more = more;
    out.append(&mut more);
    assert(out@ == old(out)@ + given);
    assert(acts(out@) =~= acts(old(out)@) + acts(given));
}

impl Bakery {
    /// Relays `args` to the chat `room` (see `relay`).
    pub fn send_to_chat(&mut self, room: &str, args: &str) -> (r: Vec<Action>)
        ensures
            (final(self)@, acts(r@)) == relay(old(self)@, room@, args@),
            final(self)@.to_send_room == "None"@,
            (exists|i: int| 0 <= i < old(self)@.connections.len() && old(self)@.connections[i].0 == room@)
                && room@ != "None"@ ==> acts(r@) == sends_to(
                old(self)@.connections,
                room@,
                post_fields(old(self)@, args@),
            ) + sends_to(
                old(self)@.connections,
                old(self)@.current_chat,
                post_fields(old(self)@, "Done."@),
            ),
            (forall|i: int| 0 <= i < old(self)@.connections.len() ==> old(self)@.connections[i].0 != room@)
                && old(self)@.to_send_room == "None"@ ==> acts(r@) == sends_to(
                old(self)@.connections,
                old(self)@.current_chat,
                post_fields(old(self)@, "I am not in that chat."@),
            ),
    {
        let ghost b = self@;
        let mut found = false;
        let mut i: usize = 0;
        while i < self.connections.len()
            invariant
                b == self@,
                i <= self.connections@.len(),
                found == exists|j: int| 0 <= j < i && #[trigger] b.connections[j].0 == room@,
            decreases self.connections.len() - i,
        {
            assert(b.connections[i as int].0 == self.connections@[i as int].name@);
            if same_text(self.connections[i].name.as_str(), room) {
                found = true;
            }
            i += 1;
        }
        assert(found == has_chat(b, room@));
        if found {
            self.to_send_room = owned(room);
        }
        assert(self@ == BakeryView { to_send_room: if found { room@ } else { b.to_send_room }, ..b });
        if !same_text(self.to_send_room.as_str(), "None") {
            let mut a = self.chat_post(args);
            self.to_send_room = owned("None");
            let d = self.chat_post("Done.");
            then(&mut a, d);
            a
        } else {
            self.chat_post("I am not in that chat.")
        }
    }

    /// Joins the group chat `args`: it is added, logged in, and opened.
    fn chat_join(&mut self, args: &str) -> (r: Action)
        ensures
            final(self)@ == (BakeryView { connections: old(self)@.connections.push((args@, true)), ..old(self)@ }),
            (r matches Action::Open { conn, login } && conn == old(self)@.connections.len()
                && is_bauth(login@, args@, old(self)@.username, old(self)@.password, false)),
    {
        let mut chat = Chat::new(owned(args));
        let login = chat.chat_login(self.username.as_str(), self.password.as_str());
        let conn = self.connections.len();
        let ghost before = self.connections@;
        self.connections.push(chat);
        assert(chat_views(self.connections@) =~= chat_views(before).push((args@, true)));
        Action::Open { conn, login }
    }

    /// Carries out a command (see `command_result`).
    pub fn commands(&mut self, message: &Message, command: &str, args: &str) -> (r: Vec<Action>)
        ensures
            exists|login: Seq<char>|
                (joins(old(self)@, message.user@, command@) ==> is_bauth(
                    login,
                    args@,
                    old(self)@.username,
                    old(self)@.password,
                    false,
                )) && (final(self)@, acts(r@)) == command_result(
                    old(self)@,
                    message.user@,
                    command@,
                    args@,
                    login,
                ),
    {
        let ghost b = self@;
        let ghost user = message.user@;
        let ghost mut w: Seq<char> = Seq::empty();
        proof {
            reveal_strlit("say");
            reveal_strlit("yt");
            reveal_strlit("rainbow");
            reveal_strlit("send");
            reveal_strlit("join");
            reveal_strlit("rsend");
            assert("say"@.len() == 3 && "yt"@.len() == 2 && "rainbow"@.len() == 7 && "rsend"@.len() == 5);
            assert("join"@.len() == 4 && "send"@[0] == 's' && "join"@[0] == 'j');
            assert("say"@ != "join"@ && "yt"@ != "join"@ && "rainbow"@ != "join"@);
            assert("send"@ != "join"@ && "rsend"@ != "join"@);
        }
        let ismod = list_holds(&self.mods, message.user.as_str());
        let r = if same_text(command, "say") {
            self.chat_post(args)
        } else if same_text(command, "yt") {
            let url = youtube_url(self.api_key.as_str(), args);
            let r = vec![Action::YouTube { url }];
            assert(acts(r@) =~= seq![Act::YouTube(youtube_query(b.api_key, args@))]);
            r
        } else if same_text(command, "rainbow") {
            let r = vec![Action::Rainbow { text: owned(args), size: owned("12"), room: None }];
            assert(acts(r@) =~= seq![Act::Rainbow(args@, "12"@, None)]);
            r
        } else if same_text(command, "send") {
            if ismod {
                let (room, text) = cut_first(args, ' ');
                self.send_to_chat(room.as_str(), text.as_str())
            } else {
                self.chat_post("You do not have permission to use this command.")
            }
        } else if same_text(command, "join") {
            if ismod {
                let open = self.chat_join(args);
                let ghost login = match open {
                    Action::Open { conn, ref login } => login@,
                    _ => Seq::empty(),
                };
                proof { w = login; }
                assert(is_bauth(w, args@, b.username, b.password, false));
                let mut r = vec![open];
                let d = self.chat_post("Done.");
                then(&mut r, d);
                assert(acts(r@) =~= seq![Act::Open(b.connections.len(), login)] + post_acts(self@, "Done."@));
                r
            } else {
                self.chat_post("You do not have permission to use this command.")
            }
        } else if same_text(command, "rsend") {
            if ismod {
                let (room, text) = cut_first(args, ' ');
                let r = vec![Action::Rainbow { text, size: owned("12"), room: Some(room) }];
                assert(acts(r@) =~= seq![Act::Rainbow(after_first(args@, ' '), "12"@, Some(before_first(args@, ' ')))]);
                r
            } else {
                self.chat_post("You do not have permission to use this command.")
            }
        } else {
            self.chat_post("Unknown command")
        };
        proof {
            assert(joins(b, user, command@) ==> is_bauth(w, args@, b.username, b.password, false));
            assert(command_result(b, user, command@, args@, w) == (self@, acts(r@)));
        }
        r
    }
}

impl Bakery {
    /// Shows a message from a chat's history when it mentions the owner.
    pub fn on_hist(&self, message: &Message) -> (r: Vec<Action>)
        ensures
            acts(r@) == mention_acts(message.user@, message.content@, message.chat@),
    {
        let lower = to_lower(message.content.as_str());
        proof { reveal_strlit("herenti"); }
        if holds_piece(lower.as_str(), "herenti") {
            let r = vec![Action::Mention {
                chat: message.chat.clone(),
                user: message.user.clone(),
                content: message.content.clone(),
            }];
            assert(acts(r@) =~= seq![Act::Mention(message.chat@, message.user@, message.content@)]);
            r
        } else {
            let r: Vec<Action> = Vec::new();
            assert(acts(r@) =~= Seq::<Act>::empty());
            r
        }
    }

    /// Handles a posted message (see `post_result`).
    pub fn on_post(&mut self, message: &Message) -> (r: Vec<Action>)
        ensures
            exists|login: Seq<char>|
                (takes_command(old(self)@, message.content@, message.chat@) && joins(
                    old(self)@,
                    message.user@,
                    command_word(message.content@),
                ) ==> is_bauth(
                    login,
                    after_first(message.content@, ' '),
                    old(self)@.username,
                    old(self)@.password,
                    false,
                )) && (final(self)@, acts(r@)) == post_result(
                    old(self)@,
                    message.user@,
                    message.content@,
                    message.chat@,
                    login,
                ),
            has_piece(lowercase(message.content@), "herenti"@) ==> acts(r@).len() >= 1 && acts(r@)[0]
                == Act::Mention(message.chat@, message.user@, message.content@),
    {
        let ghost b = self@;
        let mut out = self.on_hist(message);
        let locked = list_holds(&self.locked_rooms, message.chat.as_str());
        proof { reveal_strlit("herenti"); }
        let v = crate::text::chars_of(message.content.as_str());
        proof {
            reveal_strlit("$");
            assert("$"@ =~= seq!['$']);
        }
        let dollar = v.len() > 0 && v[0] == '$';
        assert(dollar == begins_with(message.content@, "$"@)) by {
            if v@.len() > 0 {
                assert(v@.take(1) =~= seq![v@[0]]);
                if v@[0] != '$' {
                    assert(v@.take(1)[0] != "$"@[0]);
                }
            }
        }
        if !locked && dollar {
            let (word, args) = cut_first(message.content.as_str(), ' ');
            let bare = remove_all(word.as_str(), '$');
            let command = to_lower(bare.as_str());
            let more = self.commands(message, command.as_str(), args.as_str());
            let ghost login = choose|login: Seq<char>|
                (joins(b, message.user@, command@) ==> is_bauth(
                    login,
                    args@,
                    b.username,
                    b.password,
                    false,
                )) && (self@, acts(more@)) == command_result(b, message.user@, command@, args@, login);
            then(&mut out, more);
            assert(post_result(b, message.user@, message.content@, message.chat@, login) == (self@, acts(out@)));
        } else {
            assert(post_result(b, message.user@, message.content@, message.chat@, Seq::empty()) == (self@, acts(out@)));
        }
        out
    }

    /// The frames sent once the current chat has logged in, then the line
    /// that says so.
    pub fn event_inited(&self) -> (r: Vec<Action>)
        ensures
            acts(r@) == inited_acts(self@),
    {
        let d1 = vec![owned("getpremium"), owned("1")];
        let d2 = vec![owned("g_participants"), owned("start")];
        let d3 = vec![owned("getbannedwords")];
        let d4 = vec![owned("msgbg"), owned("1")];
        assert(views(d1@) =~= seq!["getpremium"@, "1"@]);
        assert(views(d2@) =~= seq!["g_participants"@, "start"@]);
        assert(views(d3@) =~= seq!["getbannedwords"@]);
        assert(views(d4@) =~= seq!["msgbg"@, "1"@]);
        let mut out = self.chat_send(&d1);
        let a = self.chat_send(&d2);
        then(&mut out, a);
        let a = self.chat_send(&d3);
        then(&mut out, a);
        let a = self.chat_send(&d4);
        then(&mut out, a);
        let ghost before = out@;
        out.push(Action::LoggedIn { chat: self.current_chat.clone() });
        assert(acts(out@) =~= acts(before).push(Act::LoggedIn(self@.current_chat)));
        out
    }
}

impl Bakery {
    /// Handles a posted message: its fields (time, user, alias, user id,
    /// chat id, session id, address, two not read, text) in the current chat.
    /// `None` when the regex crate refuses the tag pattern.
    pub fn event_b(&mut self, data: &Vec<String>) -> (r: Option<Vec<Action>>)
        requires
            data@.len() >= 9,
        ensures
            match r {
                Some(a) => regex_compiles(tag_pattern()) && exists|login: Seq<char>|
                    #![trigger post_result(old(self)@, poster(views(data@)[1], views(data@)[2]), message_text(views(data@)), old(self)@.current_chat, login)]
                    (posted_joins(old(self)@, views(data@)) ==> is_bauth(
                        login,
                        after_first(message_text(views(data@)), ' '),
                        old(self)@.username,
                        old(self)@.password,
                        false,
                    )) && (final(self)@, acts(a@)) == post_result(
                        old(self)@,
                        poster(views(data@)[1], views(data@)[2]),
                        message_text(views(data@)),
                        old(self)@.current_chat,
                        login,
                    ),
                None => !regex_compiles(tag_pattern()) && final(self)@ == old(self)@,
            },
    {
        let ghost b = self@;
        let chat = self.current_chat.clone();
        match read_message(data, chat.as_str()) {
            Some(m) => {
                let a = self.on_post(&m);
                proof {
                    let login = choose|login: Seq<char>|
                        (takes_command(b, m.content@, m.chat@) && joins(
                            b,
                            m.user@,
                            command_word(m.content@),
                        ) ==> is_bauth(login, after_first(m.content@, ' '), b.username, b.password, false))
                            && (self@, acts(a@)) == post_result(b, m.user@, m.content@, m.chat@, login);
                    assert(m.chat@ == b.current_chat);
                    assert(m.content@ == message_text(views(data@)));
                    assert(m.user@ == poster(views(data@)[1], views(data@)[2]));
                    assert((self@, acts(a@)) == post_result(
                        b,
                        poster(views(data@)[1], views(data@)[2]),
                        message_text(views(data@)),
                        b.current_chat,
                        login,
                    ));
                    assert(posted_joins(b, views(data@)) ==> is_bauth(
                        login,
                        after_first(message_text(views(data@)), ' '),
                        b.username,
                        b.password,
                        false,
                    ));
                }
                Some(a)
            },
            None => None,
        }
    }

    /// Handles a message from a chat's history (fields as for `event_b`):
    /// shown when it mentions the owner. `None` when the regex crate refuses
    /// the tag pattern.
    pub fn event_i(&self, data: &Vec<String>) -> (r: Option<Vec<Action>>)
        requires
            data@.len() >= 9,
        ensures
            match r {
                Some(a) => regex_compiles(tag_pattern()) && acts(a@) == mention_acts(
                    poster(views(data@)[1], views(data@)[2]),
                    message_text(views(data@)),
                    self@.current_chat,
                ),
                None => !regex_compiles(tag_pattern()),
            },
    {
        match read_message(data, self.current_chat.as_str()) {
            Some(m) => Some(self.on_hist(&m)),
            None => None,
        }
    }

    /// Handles a frame read from chat `chatname` (see `event_result`). The
    /// frame is not empty, and a `b` or `i` frame has at least ten fields.
    pub fn events(&mut self, chatname: &str, collection: &Vec<String>) -> (r: Option<Vec<Action>>)
        requires
            collection@.len() >= 1,
            collection@[0]@ == "b"@ || collection@[0]@ == "i"@ ==> collection@.len() >= 10,
        ensures
            match r {
                Some(a) => exists|login: Seq<char>|
                    (event_joins(old(self)@, chatname@, views(collection@)) ==> is_bauth(
                        login,
                        event_join_target(views(collection@)),
                        old(self)@.username,
                        old(self)@.password,
                        false,
                    )) && event_result(old(self)@, chatname@, views(collection@), login) == Some(
                        (final(self)@, acts(a@)),
                    ),
                None => event_result(old(self)@, chatname@, views(collection@), Seq::empty()) is None
                    && final(self)@ == (BakeryView { current_chat: chatname@, ..old(self)@ }),
            },
    {
        let ghost b = self@;
        let ghost f = views(collection@);
        self.current_chat = owned(chatname);
        let ghost b1 = self@;
        assert(b1 == BakeryView { current_chat: chatname@, ..b });
        let mut data: Vec<String> = Vec::new();
        let mut i: usize = 1;
        while i < collection.len()
            invariant
                1 <= i <= collection@.len(),
                f == views(collection@),
                views(data@) == f.subrange(1, i as int),
            decreases collection.len() - i,
        {
            let ghost before = data@;
            data.push(collection[i].clone());
            assert(views(data@) =~= views(before).push(f[i as int]));
            assert(views(data@) =~= f.subrange(1, i + 1));
            i += 1;
        }
        assert(views(data@) =~= f.drop_first());
        assert(f[0] == collection@[0]@);
        let ev = collection[0].as_str();
        let ghost mut w: Seq<char> = Seq::empty();
        proof {
            reveal_strlit("b");
            reveal_strlit("i");
            reveal_strlit("inited");
            assert("b"@.len() == 1 && "i"@.len() == 1 && "inited"@.len() == 6);
            assert("b"@[0] == 'b' && "i"@[0] == 'i');
            assert("b"@ != "i"@ && "b"@ != "inited"@ && "i"@ != "inited"@);
        }
        let r = if same_text(ev, "b") {
            let r = self.event_b(&data);
            proof {
                if r is Some {
                    w = choose|login: Seq<char>|
                        (posted_joins(b1, f.drop_first()) ==> is_bauth(
                            login,
                            after_first(message_text(f.drop_first()), ' '),
                            b1.username,
                            b1.password,
                            false,
                        )) && (self@, acts(r->0@)) == post_result(
                            b1,
                            poster(f.drop_first()[1], f.drop_first()[2]),
                            message_text(f.drop_first()),
                            b1.current_chat,
                            login,
                        );
                }
            }
            r
        } else if same_text(ev, "inited") {
            Some(self.event_inited())
        } else if same_text(ev, "i") {
            self.event_i(&data)
        } else {
            let a: Vec<Action> = Vec::new();
            assert(acts(a@) =~= Seq::<Act>::empty());
            Some(a)
        };
        proof {
            if r is Some {
                assert(event_joins(b, chatname@, f) ==> is_bauth(
                    w,
                    event_join_target(f),
                    b.username,
                    b.password,
                    false,
                ));
                assert(event_result(b, chatname@, f, w) == Some((self@, acts(r->0@))));
            }
        }
        r
    }

    /// Posts rainbow text here (`room` is `None`) or relays it to `room`
    /// (see `rainbow_result`).
    pub fn rainbow_done(&mut self, text: &str, room: Option<String>) -> (r: Vec<Action>)
        ensures
            (final(self)@, acts(r@)) == rainbow_result(
                old(self)@,
                text@,
                match room {
                    Some(x) => Some(x@),
                    None => None,
                },
            ),
            vstd::utf8::encode_utf8(text@).len() > 2490 ==> final(self)@ == old(self)@ && acts(r@)
                == post_acts(old(self)@, "That message is too long for chatango."@),
    {
        if text.as_bytes().len() > 2490 {
            self.chat_post("That message is too long for chatango.")
        } else {
            match room {
                None => self.chat_post(text),
                Some(r) => self.send_to_chat(r.as_str(), text),
            }
        }
    }

    /// The bot as configured (see `started`), and the chats to open: each
    /// configured room, logged in with a `bauth` frame, then the
    /// private-message chat.
    pub fn oven(config: Config) -> (r: (Bakery, Vec<Action>))
        ensures
            r.0@ == started(config),
            acts(r.1@).len() == config.room_list@.len() + 1,
            forall|i: int|
                0 <= i < config.room_list@.len() ==> (#[trigger] acts(r.1@)[i] matches Act::Open(
                    j,
                    login,
                ) && j == i && is_bauth(
                    login,
                    config.room_list@[i]@,
                    config.username@,
                    config.password@,
                    false,
                )),
            acts(r.1@)[config.room_list@.len() as int] == Act::OpenPm(config.room_list@.len() as nat),
            r.0.username@ == config.username@,
            r.0.password@ == config.password@,
    {
        let ghost c = config;
        let Config { username, password, api_key, room_list, mods, locked_rooms } = config;
        let mut connections: Vec<Chat> = Vec::new();
        let mut out: Vec<Action> = Vec::new();
        let mut i: usize = 0;
        while i < room_list.len()
            invariant
                room_list@ == c.room_list@,
                username@ == c.username@,
                password@ == c.password@,
                i <= room_list@.len(),
                connections@.len() == i,
                chat_views(connections@) == Seq::new(i as nat, |k: int| (room_list@[k]@, true)),
                acts(out@).len() == i,
                forall|k: int|
                    0 <= k < i ==> (#[trigger] acts(out@)[k] matches Act::Open(j, login) && j == k
                        && is_bauth(login, room_list@[k]@, username@, password@, false)),
            decreases room_list.len() - i,
        {
            let mut chat = Chat::new(room_list[i].clone());
            let login = chat.chat_login(username.as_str(), password.as_str());
            let ghost cs = connections@;
            let ghost os = out@;
            connections.push(chat);
            out.push(Action::Open { conn: i, login });
            assert(chat_views(connections@) =~= Seq::new((i + 1) as nat, |k: int| (room_list@[k]@, true))) by {
                assert(chat_views(connections@) =~= chat_views(cs).push((room_list@[i as int]@, true)));
            }
            assert(acts(out@) =~= acts(os).push(acts(out@)[i as int]));
            i += 1;
        }
        let ghost cs = connections@;
        let ghost os = out@;
        connections.push(Chat::new(owned("_pm")));
        out.push(Action::OpenPm { conn: i });
        assert(acts(out@) =~= acts(os).push(Act::OpenPm(i as nat)));
        assert(chat_views(connections@) =~= chat_views(cs).push(("_pm"@, false)));
        let bakery = Bakery {
            connections,
            current_chat: owned("None"),
            to_send_room: owned("None"),
            username,
            password,
            name_color: owned("C7A793"),
            font_color: owned("F7DCCE"),
            font_size: 10,
            api_key,
            room_list,
            mods,
            locked_rooms,
        };
        assert(bakery@ == started(c));
        (bakery, out)
    }
}

} // verus!
