//! The wire format: frames sent to a chat, login frames, the start-up
//! configuration, packets read from a chat, chat messages, and the YouTube
//! search reply.

use vstd::prelude::*;
use crate::bindings::{
    decode_entities, decode_lossy, html_decoded, json_lookup_str, json_parses, json_str_at,
    push_char, random_in, regex_capture, regex_compiles, regex_group, regex_replace_all,
    regex_replaced, lossy_text,
};
use crate::server::{g_server, group_ok, server_address};
use crate::text::{
    append, decimal, join, join_text, owned, same_text, split_on, split_text, trim, trim_text,
    views, push_decimal,
};

verus! {

// ---------------------------------------------------------------------------
// Frames
// ---------------------------------------------------------------------------

/// What ends a frame: `\r\n\0` once the chat has logged in, `\0` before.
pub open spec fn frame_end(byteready: bool) -> Seq<char> {
    if byteready { seq!['\r', '\n', '\0'] } else { seq!['\0'] }
}

/// A frame: the fields joined by `:`, then the ending.
pub open spec fn frame(parts: Seq<Seq<char>>, byteready: bool) -> Seq<char> {
    join(parts, seq![':']) + frame_end(byteready)
}

/// The smallest and the first too large chat id of a login.
pub open spec fn id_low() -> nat {
    1_000_000_000_000_000
}

pub open spec fn id_high() -> nat {
    10_000_000_000_000_000
}

/// Whether `f` is a chat login frame for a chat, user and password: the
/// `bauth` fields with a sixteen-digit chat id.
pub open spec fn is_bauth(f: Seq<char>, chat: Seq<char>, user: Seq<char>, pass: Seq<char>, byteready: bool) -> bool {
    exists|id: nat|
        id_low() <= id < id_high() && f == frame(
            seq!["bauth"@, chat, #[trigger] decimal(id), user, pass],
            byteready,
        )
}

/// A connection to one chat (a group, or the private-message server).
pub struct Chat {
    pub name: String,
    /// Whether the chat has logged in, which changes how frames end.
    pub byteready: bool,
}

impl Chat {
    /// A chat that has not logged in yet.
    pub fn new(name: String) -> (c: Chat)
        ensures
            c.name == name,
            !c.byteready,
    {
        Chat { name, byteready: false }
    }

    /// The frame that sends `data` to this chat.
    pub fn chat_send(&self, data: &Vec<String>) -> (r: String)
        ensures
            r@ == frame(views(data@), self.byteready),
    {
        let mut r = join_text(data, ":");
        proof {
            reveal_strlit(":");
            assert(":"@ =~= seq![':']);
        }
        if self.byteready {
            push_char(&mut r, '\r');
            push_char(&mut r, '\n');
        }
        push_char(&mut r, '\0');
        assert(r@ =~= frame(views(data@), self.byteready));
        r
    }

    /// Logs in to a group chat: the `bauth` frame with a random sixteen-digit
    /// chat id; afterwards frames end with `\r\n\0`.
    pub fn chat_login(&mut self, username: &str, password: &str) -> (r: String)
        ensures
            is_bauth(r@, old(self).name@, username@, password@, old(self).byteready),
            final(self).name == old(self).name,
            final(self).byteready,
    {
        let id = random_in(1_000_000_000_000_000, 10_000_000_000_000_000);
        let mut digits = String::new();
        push_decimal(&mut digits, id);
        let mut data: Vec<String> = Vec::new();
        data.push(owned("bauth"));
        data.push(self.name.clone());
        data.push(digits);
        data.push(owned(username));
        data.push(owned(password));
        let r = self.chat_send(&data);
        proof {
            assert(views(data@) =~= seq!["bauth"@, self.name@, decimal(id as nat), username@, password@]);
            assert(is_bauth(r@, self.name@, username@, password@, self.byteready));
        }
        self.byteready = true;
        r
    }

    /// The login frame of the private-message chat, with the token that the
    /// login web form gave: `tlogin:<token>:2\0`.
    pub fn pm_login(auth: &str) -> (r: String)
        ensures
            r@ == "tlogin:"@ + auth@ + ":2"@ + seq!['\0'],
    {
        let mut r = owned("tlogin:");
        append(&mut r, auth);
        append(&mut r, ":2");
        push_char(&mut r, '\0');
        r
    }
}

/// The address to connect to: the group's server for a group chat (`ctype`
/// is `chat`), the private-message server otherwise.
pub fn chat_server(name: &String, ctype: &str) -> (r: String)
    requires
        ctype@ == "chat"@ ==> group_ok(name@),
    ensures
        ctype@ == "chat"@ ==> r@ == server_address(name@),
        ctype@ != "chat"@ ==> r@ == "c1.chatango.com:5222"@,
{
    if same_text(ctype, "chat") {
        g_server(name.clone())
    } else {
        owned("c1.chatango.com:5222")
    }
}

// ---------------------------------------------------------------------------
// Login token
// ---------------------------------------------------------------------------

/// The pattern that finds the token in a login cookie.
pub open spec fn auth_pattern() -> Seq<char> {
    "auth.chatango.com=(.*?);"@
}

/// The login token in the third cookie that the login form set: the first
/// capture of `auth.chatango.com=(.*?);`. The third cookie must hold one.
pub fn auth_token(cookies: &Vec<String>) -> (r: String)
    requires
        cookies@.len() >= 3,
        regex_compiles(auth_pattern()),
        regex_group(auth_pattern(), cookies@[2]@, 1) is Some,
    ensures
        regex_group(auth_pattern(), cookies@[2]@, 1) == Some(r@),
{
    match regex_capture("auth.chatango.com=(.*?);", cookies[2].as_str(), 1) {
        Some(Some(t)) => t,
        _ => {
            assert(false);
            String::new()
        },
    }
}

/// The login token as `auth_token` finds it, when there are at least three
/// cookies and the third holds one; `None` otherwise.
pub fn checked_auth_token(cookies: &Vec<String>) -> (r: Option<String>)
    ensures
        match r {
            Some(t) => cookies@.len() >= 3 && regex_compiles(auth_pattern())
                && regex_group(auth_pattern(), cookies@[2]@, 1) == Some(t@),
            None => cookies@.len() < 3 || !regex_compiles(auth_pattern())
                || regex_group(auth_pattern(), cookies@[2]@, 1) is None,
        },
{
    if cookies.len() < 3 {
        return None;
    }
    match regex_capture("auth.chatango.com=(.*?);", cookies[2].as_str(), 1) {
        Some(Some(_)) => Some(auth_token(cookies)),
        _ => None,
    }
}

// ---------------------------------------------------------------------------
// Configuration
// ---------------------------------------------------------------------------

/// What the bot is configured with: `username:password:apikey:rooms:mods:locked`,
/// the last three each a list separated by spaces.
pub struct Config {
    pub username: String,
    pub password: String,
    pub api_key: String,
    pub room_list: Vec<String>,
    pub mods: Vec<String>,
    pub locked_rooms: Vec<String>,
}

/// The fields of a configuration text.
pub open spec fn config_fields(contents: Seq<char>) -> Seq<Seq<char>> {
    split_on(trim(contents), ':')
}

/// Whether a configuration text has the six fields it needs.
pub fn config_is_complete(contents: &str) -> (r: bool)
    ensures
        r == (config_fields(contents@).len() >= 6),
{
    let trimmed = trim_text(contents);
    let fields = split_text(trimmed.as_str(), ':');
    fields.len() >= 6
}

impl Config {
    /// Reads a configuration: the text is trimmed and cut at each `:`. There
    /// must be at least six fields; more are ignored.
    pub fn new(contents: &str) -> (c: Config)
        requires
            config_fields(contents@).len() >= 6,
        ensures
            ({
                let f = config_fields(contents@);
                &&& c.username@ == f[0]
                &&& c.password@ == f[1]
                &&& c.api_key@ == f[2]
                &&& views(c.room_list@) == split_on(f[3], ' ')
                &&& views(c.mods@) == split_on(f[4], ' ')
                &&& views(c.locked_rooms@) == split_on(f[5], ' ')
            }),
    {
        let trimmed = trim_text(contents);
        let fields = split_text(trimmed.as_str(), ':');
        assert(views(fields@)[3] == fields@[3]@);
        assert(views(fields@)[4] == fields@[4]@);
        assert(views(fields@)[5] == fields@[5]@);
        assert(views(fields@)[0] == fields@[0]@);
        assert(views(fields@)[1] == fields@[1]@);
        assert(views(fields@)[2] == fields@[2]@);
        Config {
            username: fields[0].clone(),
            password: fields[1].clone(),
            api_key: fields[2].clone(),
            room_list: split_text(fields[3].as_str(), ' '),
            mods: split_text(fields[4].as_str(), ' '),
            locked_rooms: split_text(fields[5].as_str(), ' '),
        }
    }
}

// ---------------------------------------------------------------------------
// Packets
// ---------------------------------------------------------------------------

/// The frames of a packet read from a chat: the bytes decoded (invalid
/// sequences replaced), cut at each `\0`, each piece trimmed and cut at each
/// `:` into its fields.
pub open spec fn packet_frames(bytes: Seq<u8>) -> Seq<Seq<Seq<char>>> {
    split_on(lossy_text(bytes), '\0').map_values(|p: Seq<char>| split_on(trim(p), ':'))
}

/// Decodes a packet read from a chat into the fields of each of its frames.
pub fn decode_packet(bytes: &[u8]) -> (r: Vec<Vec<String>>)
    ensures
        r@.len() == packet_frames(bytes@).len(),
        forall|i: int| 0 <= i < r@.len() ==> views(#[trigger] r@[i]@) == packet_frames(bytes@)[i],
{
    let text = decode_lossy(bytes);
    let pieces = split_text(text.as_str(), '\0');
    let ghost frames = packet_frames(bytes@);
    let mut r: Vec<Vec<String>> = Vec::new();
    let mut i: usize = 0;
    while i < pieces.len()
        invariant
            views(pieces@) == split_on(lossy_text(bytes@), '\0'),
            frames == packet_frames(bytes@),
            i <= pieces@.len(),
            r@.len() == i,
            forall|j: int| 0 <= j < i ==> views(#[trigger] r@[j]@) == frames[j],
        decreases pieces.len() - i,
    {
        let t = trim_text(pieces[i].as_str());
        let fields = split_text(t.as_str(), ':');
        assert(views(pieces@)[i as int] == pieces@[i as int]@);
        r.push(fields);
        i += 1;
    }
    r
}

// ---------------------------------------------------------------------------
// Messages
// ---------------------------------------------------------------------------

/// A message posted in a chat, or one from its history.
pub struct Message {
    pub user: String,
    pub cid: String,
    pub uid: String,
    pub time: String,
    pub sid: String,
    pub ip: String,
    pub content: String,
    pub chat: String,
}

/// The name shown for a poster: the user name, else the alias, else `None`
/// (an empty name and the name `None` both count as missing).
pub open spec fn poster(user: Seq<char>, alias: Seq<char>) -> Seq<char> {
    if user == Seq::<char>::empty() || user == "None"@ {
        if alias == Seq::<char>::empty() || alias == "None"@ {
            "None"@
        } else {
            alias
        }
    } else {
        user
    }
}

/// The pattern of a markup tag.
pub open spec fn tag_pattern() -> Seq<char> {
    "<.*?>"@
}

/// The text of a message from its fields: fields ten and on put together,
/// every markup tag removed, then HTML character references decoded.
pub open spec fn message_text(data: Seq<Seq<char>>) -> Seq<char> {
    html_decoded(regex_replaced(tag_pattern(), join(data.skip(9), Seq::empty()), Seq::empty()))
}

/// The name shown for a poster (see `poster`).
pub fn poster_name(user: &str, alias: &str) -> (r: String)
    ensures
        r@ == poster(user@, alias@),
{
    proof {
        reveal_strlit("");
        assert(""@ =~= Seq::<char>::empty());
    }
    if same_text(user, "") || same_text(user, "None") {
        if same_text(alias, "") || same_text(alias, "None") {
            owned("None")
        } else {
            owned(alias)
        }
    } else {
        owned(user)
    }
}

/// The message in the fields of a `b` (posted) or `i` (history) frame,
/// after its event name: time, user, alias, user id, chat id, session id,
/// address, two fields not read, then the text. `None` when the regex
/// crate refuses the tag pattern.
pub fn read_message(data: &Vec<String>, chat: &str) -> (r: Option<Message>)
    requires
        data@.len() >= 9,
    ensures
        r is Some <==> regex_compiles(tag_pattern()),
        r matches Some(m) ==> {
            let d = views(data@);
            &&& m.user@ == poster(d[1], d[2])
            &&& m.cid@ == d[4]
            &&& m.uid@ == d[3]
            &&& m.time@ == d[0]
            &&& m.sid@ == d[5]
            &&& m.ip@ == d[6]
            &&& m.content@ == message_text(d)
            &&& m.chat@ == chat@
        },
        r matches Some(m) ==> {
            let stripped = regex_replaced(tag_pattern(), join(views(data@).skip(9), Seq::empty()), Seq::empty());
            &&& m.content@ == html_decoded(stripped)
            &&& !stripped.contains('&') ==> m.content@ == stripped
        },
{
    let mut rest: Vec<String> = Vec::new();
    let mut i: usize = 9;
    while i < data.len()
        invariant
            9 <= i <= data@.len(),
            views(rest@) == views(data@).subrange(9, i as int),
        decreases data.len() - i,
    {
        let ghost before = rest@;
        let x = data[i].clone();
        rest.push(x);
        assert(views(rest@) =~= views(before).push(data@[i as int]@));
        assert(views(rest@) =~= views(data@).subrange(9, i + 1));
        i += 1;
    }
    assert(views(data@).subrange(9, data@.len() as int) =~= views(data@).skip(9));
    let joined = join_text(&rest, "");
    proof {
        reveal_strlit("");
        assert(""@ =~= Seq::<char>::empty());
    }
    let stripped = match regex_replace_all("<.*?>", joined.as_str(), "") {
        Some(s) => s,
        None => return None,
    };
    let content = decode_entities(stripped.as_str());
    let ghost d = views(data@);
    assert(d[0] == data@[0]@ && d[1] == data@[1]@ && d[2] == data@[2]@ && d[3] == data@[3]@);
    assert(d[4] == data@[4]@ && d[5] == data@[5]@ && d[6] == data@[6]@);
    Some(Message {
        user: poster_name(data[1].as_str(), data[2].as_str()),
        cid: data[4].clone(),
        uid: data[3].clone(),
        time: data[0].clone(),
        sid: data[5].clone(),
        ip: data[6].clone(),
        content,
        chat: owned(chat),
    })
}

// ---------------------------------------------------------------------------
// YouTube search
// ---------------------------------------------------------------------------

/// The search request for one video matching `search`.
pub open spec fn youtube_query(api_key: Seq<char>, search: Seq<char>) -> Seq<char> {
    "https://www.googleapis.com/youtube/v3/search?q="@ + search + "&key="@ + api_key
        + "&type=video&maxResults=1&part=snippet"@
}

/// The address of the search request for one video matching `search`.
pub fn youtube_url(api_key: &str, search: &str) -> (r: String)
    ensures
        r@ == youtube_query(api_key@, search@),
{
    let mut r = owned("https://www.googleapis.com/youtube/v3/search?q=");
    append(&mut r, search);
    append(&mut r, "&key=");
    append(&mut r, api_key);
    append(&mut r, "&type=video&maxResults=1&part=snippet");
    r
}

/// The id of the first video in a search reply.
pub open spec fn reply_video_id(body: Seq<char>) -> Option<Seq<char>> {
    json_str_at(body, "items"@, 0, "id"@, "videoId"@)
}

/// The title of the first video in a search reply.
pub open spec fn reply_title(body: Seq<char>) -> Option<Seq<char>> {
    json_str_at(body, "items"@, 0, "snippet"@, "title"@)
}

/// What is posted for a search reply that is JSON: a link to the first
/// video and its title, or `No video found.` when there is no video id.
/// `None` when there is an id but no title.
pub open spec fn youtube_answer(body: Seq<char>) -> Option<Seq<char>> {
    match reply_video_id(body) {
        Some(id) => match reply_title(body) {
            Some(title) => Some(
                "https://www.youtube.com/watch?v="@ + id + "\r\r\r\rVideo title [<b>"@ + title
                    + "</b>]"@,
            ),
            None => None,
        },
        None => Some("No video found."@),
    }
}

/// What is posted for a search reply (see `youtube_answer`). The reply must
/// be JSON, and must not name a video without a title.
pub fn youtube_reply(body: &str) -> (r: String)
    requires
        json_parses(body@),
        youtube_answer(body@) is Some,
    ensures
        youtube_answer(body@) == Some(r@),
{
    let id = match json_lookup_str(body, "items", 0, "id", "videoId") {
        Some(c) => c,
        None => {
            assert(false);
            return String::new();
        },
    };
    match id {
        Some(id) => {
            let title = match json_lookup_str(body, "items", 0, "snippet", "title") {
                Some(Some(t)) => t,
                _ => {
                    assert(false);
                    return String::new();
                },
            };
            let mut r = owned("https://www.youtube.com/watch?v=");
            append(&mut r, id.as_str());
            append(&mut r, "\r\r\r\rVideo title [<b>");
            append(&mut r, title.as_str());
            append(&mut r, "</b>]");
            r
        },
        None => owned("No video found."),
    }
}

/// What `youtube_reply` posts for a search reply, when the reply is JSON
/// and does not name a video without a title; `None` otherwise.
pub fn checked_youtube_reply(body: &str) -> (r: Option<String>)
    ensures
        match r {
            Some(s) => json_parses(body@) && youtube_answer(body@) == Some(s@),
            None => !json_parses(body@) || youtube_answer(body@) is None,
        },
{
    let id = match json_lookup_str(body, "items", 0, "id", "videoId") {
        Some(c) => c,
        None => return None,
    };
    if id.is_some() {
        match json_lookup_str(body, "items", 0, "snippet", "title") {
            Some(Some(_)) => {},
            _ => return None,
        }
    }
    Some(youtube_reply(body))
}

} // verus!
