//! What holds of the bot across its operations.

use vstd::prelude::*;
use crate::bakery::{
    command_result, event_result, mention_acts, post_fields, sends_to, Act, no_permission, post_acts, post_result, relay,
    rainbow_result, started, BakeryView,
};
use crate::protocol::{frame, message_text, packet_frames, tag_pattern, Config};
use crate::bindings::{html_decoded, lowercase, regex_replaced};
use crate::server::{
    digit36, digits36, tail_part,
    dividend, divisor, first_slot, group_bytes, group_ok, head_part, radix36, server_address,
    server_number, server_weights, share_reached, slot_for, total_weight, weight_sum,
};
use vstd::utf8::{encode_utf8, is_ascii_chars};
use crate::text::{has_piece, is_white, join, split_on, trim, trim_end, trim_start, lemma_split_none, lemma_split_step};

verus! {

// ---------------------------------------------------------------------------
// No relay target is left behind
// ---------------------------------------------------------------------------

/// After relaying a message, the bot has no relay target, and nothing else
/// of its state has changed.
pub proof fn law_relay_clears_target(b: BakeryView, room: Seq<char>, args: Seq<char>)
    ensures
        relay(b, room, args).0 == (BakeryView { to_send_room: "None"@, ..b }),
{
}

/// A command leaves no relay target when there was none before.
pub proof fn law_command_keeps_no_target(
    b: BakeryView,
    user: Seq<char>,
    command: Seq<char>,
    args: Seq<char>,
    login: Seq<char>,
)
    requires
        b.to_send_room == "None"@,
    ensures
        command_result(b, user, command, args, login).0.to_send_room == "None"@,
{
}

/// Handling a frame leaves no relay target when there was none before.
pub proof fn law_event_keeps_no_target(b: BakeryView, chatname: Seq<char>, frame: Seq<Seq<char>>, login: Seq<char>)
    requires
        b.to_send_room == "None"@,
    ensures
        event_result(b, chatname, frame, login) matches Some(r) ==> r.0.to_send_room == "None"@,
{
}

/// Posting rainbow text leaves no relay target when there was none before.
pub proof fn law_rainbow_keeps_no_target(b: BakeryView, text: Seq<char>, room: Option<Seq<char>>)
    requires
        b.to_send_room == "None"@,
    ensures
        rainbow_result(b, text, room).0.to_send_room == "None"@,
{
}

/// The bot starts without a relay target.
pub proof fn law_start_without_target(c: Config)
    ensures
        started(c).to_send_room == "None"@,
{
}


// ---------------------------------------------------------------------------
// Start-up, messages, mentions, rainbow text and relays
// ---------------------------------------------------------------------------

/// The started bot keeps the configured user name and password, which are
/// what a chat joined later logs in with.
pub proof fn law_started_keeps_credentials(c: Config)
    ensures
        started(c).username == c.username@,
        started(c).password == c.password@,
{
}

/// A message's text is the decoding of character references in the text
/// with its tags removed: tags are removed first, so two messages whose
/// texts are equal once their tags are removed read the same, and a
/// tag-stripped text without `&` is the message's text.
pub proof fn law_tags_then_entities(d1: Seq<Seq<char>>, d2: Seq<Seq<char>>)
    requires
        regex_replaced(tag_pattern(), join(d1.skip(9), Seq::empty()), Seq::empty())
            == regex_replaced(tag_pattern(), join(d2.skip(9), Seq::empty()), Seq::empty()),
    ensures
        message_text(d1) == message_text(d2),
        message_text(d1) == html_decoded(
            regex_replaced(tag_pattern(), join(d1.skip(9), Seq::empty()), Seq::empty()),
        ),
{
}

/// Every posted message whose lower-cased text mentions the owner is shown
/// first, before anything its command does, whether or not it is a command
/// and whatever chat it was posted in.
pub proof fn law_mention_first(b: BakeryView, user: Seq<char>, content: Seq<char>, chat: Seq<char>, login: Seq<char>)
    requires
        has_piece(lowercase(content), "herenti"@),
    ensures
        post_result(b, user, content, chat, login).1.len() >= 1,
        post_result(b, user, content, chat, login).1[0] == Act::Mention(chat, user, content),
{
    reveal_strlit("herenti");
    assert(mention_acts(user, content, chat) == seq![Act::Mention(chat, user, content)]);
}

/// Text longer than 2490 bytes is neither posted nor relayed, wherever it
/// was to go: only the note that it is too long is posted, and the state
/// does not change.
pub proof fn law_rainbow_too_long(b: BakeryView, text: Seq<char>, room: Option<Seq<char>>)
    requires
        vstd::utf8::encode_utf8(text).len() > 2490,
    ensures
        rainbow_result(b, text, room) == (b, post_acts(b, "That message is too long for chatango."@)),
{
}

/// Relaying to a room that some chat of the bot (configured, joined or
/// private) is named: the text goes to every chat of that name, then
/// `Done.` goes to the current chat, and no relay target is left.
pub proof fn law_relay_found(b: BakeryView, room: Seq<char>, args: Seq<char>)
    requires
        exists|i: int| 0 <= i < b.connections.len() && b.connections[i].0 == room,
        room != "None"@,
    ensures
        relay(b, room, args).1 == sends_to(b.connections, room, post_fields(b, args)) + sends_to(
            b.connections,
            b.current_chat,
            post_fields(b, "Done."@),
        ),
        relay(b, room, args).0.to_send_room == "None"@,
{
}

/// Relaying to a room that no chat of the bot is named (with no relay
/// target pending): only `I am not in that chat.` is posted, in the current
/// chat, and nothing changes.
pub proof fn law_relay_not_found(b: BakeryView, room: Seq<char>, args: Seq<char>)
    requires
        forall|i: int| 0 <= i < b.connections.len() ==> b.connections[i].0 != room,
        b.to_send_room == "None"@,
    ensures
        relay(b, room, args) == (b, sends_to(
            b.connections,
            b.current_chat,
            post_fields(b, "I am not in that chat."@),
        )),
{
}

// ---------------------------------------------------------------------------
// Rights and locked chats
// ---------------------------------------------------------------------------

/// A user who is not a moderator cannot relay, join or relay rainbow text:
/// the bot only answers that the user lacks the right, and changes nothing.
pub proof fn law_moderator_commands(
    b: BakeryView,
    user: Seq<char>,
    command: Seq<char>,
    args: Seq<char>,
    login: Seq<char>,
)
    requires
        !b.mods.contains(user),
        command == "send"@ || command == "join"@ || command == "rsend"@,
    ensures
        command_result(b, user, command, args, login) == (b, post_acts(b, no_permission())),
{
    reveal_strlit("say");
    reveal_strlit("yt");
    reveal_strlit("rainbow");
    reveal_strlit("send");
    reveal_strlit("join");
    reveal_strlit("rsend");
    assert("say"@.len() == 3 && "yt"@.len() == 2 && "rainbow"@.len() == 7);
    assert("send"@.len() == 4 && "join"@.len() == 4 && "rsend"@.len() == 5);
    assert("send"@[0] == 's' && "join"@[0] == 'j' && "say"@[1] == 'a' && "send"@[1] == 'e');
}

/// A message posted in a locked chat runs no command: the bot at most shows
/// that it mentions the owner, and changes nothing.
pub proof fn law_locked_chat(b: BakeryView, user: Seq<char>, content: Seq<char>, chat: Seq<char>, login: Seq<char>)
    requires
        b.locked_rooms.contains(chat),
    ensures
        post_result(b, user, content, chat, login) == (b, mention_acts(user, content, chat)),
{
}

// ---------------------------------------------------------------------------
// A frame reads back as its fields
// ---------------------------------------------------------------------------

/// Splitting fields joined by a separator that none of them holds gives
/// back the fields.
pub proof fn law_split_join(fields: Seq<Seq<char>>, c: char)
    requires
        fields.len() >= 1,
        forall|i: int, k: int| 0 <= i < fields.len() && 0 <= k < fields[i].len() ==> fields[i][k] != c,
    ensures
        split_on(join(fields, seq![c]), c) == fields,
    decreases fields.len(),
{
    if fields.len() == 1 {
        lemma_split_none(fields[0], c);
        assert(split_on(fields[0], c) =~= fields);
    } else {
        let f0 = fields[0];
        let rest = fields.drop_first();
        assert forall|i: int, k: int| 0 <= i < rest.len() && 0 <= k < rest[i].len() implies rest[i][k] != c by {
            assert(rest[i] == fields[i + 1]);
        }
        law_split_join(rest, c);
        let s = join(fields, seq![c]);
        assert(s == f0 + seq![c] + join(rest, seq![c]));
        let k = f0.len() as int;
        assert forall|j: int| 0 <= j < k implies s[j] != c by {
            assert(s[j] == f0[j]);
            assert(fields[0][j] != c);
        }
        assert(s[k] == c);
        lemma_split_step(s, c, k);
        assert(s.take(k) =~= f0);
        assert(s.skip(k + 1) =~= join(rest, seq![c]));
        assert(seq![f0] + rest =~= fields);
    }
}

/// Whether a text has no white space at either end.
pub open spec fn clean_ends(s: Seq<char>) -> bool {
    s.len() == 0 || (!is_white(s[0]) && !is_white(s.last()))
}

proof fn lemma_trim_clean(s: Seq<char>, tail: Seq<char>)
    requires
        clean_ends(s),
        tail == Seq::<char>::empty() || tail == seq!['\r', '\n'],
    ensures
        trim(s + tail) == s,
{
    let t = s + tail;
    reveal_with_fuel(trim_start, 3);
    reveal_with_fuel(trim_end, 3);
    if s.len() == 0 {
        assert(t =~= tail);
        if tail.len() == 2 {
            assert(tail.drop_first().drop_first() =~= Seq::<char>::empty());
            assert(trim_start(t) == Seq::<char>::empty());
        } else {
            assert(trim_start(t) == t);
        }
        assert(trim_end(Seq::<char>::empty()) == Seq::<char>::empty());
    } else {
        assert(t[0] == s[0]);
        assert(trim_start(t) == t);
        if tail.len() == 2 {
            assert(t.drop_last() =~= s + seq!['\r']);
            assert((s + seq!['\r']).drop_last() =~= s);
            assert(is_white('\n') && is_white('\r'));
            assert(trim_end(s) == s);
        } else {
            assert(t =~= s);
        }
    }
}

/// A frame that the bot writes to a chat reads back, when the chat's packet
/// is decoded, as the same fields (followed by the empty rest after the
/// final `\0`), provided no field holds `:` or `\0` and the joined fields
/// have no white space at either end.
pub proof fn law_frame_reads_back(fields: Seq<Seq<char>>, byteready: bool)
    requires
        fields.len() >= 1,
        forall|i: int, k: int|
            0 <= i < fields.len() && 0 <= k < fields[i].len() ==> fields[i][k] != ':' && fields[i][k]
                != '\0',
        clean_ends(join(fields, seq![':'])),
    ensures
        packet_frames(vstd::utf8::encode_utf8(frame(fields, byteready))) == seq![
            fields,
            seq![Seq::<char>::empty()],
        ],
{
    let j = join(fields, seq![':']);
    let f = frame(fields, byteready);
    vstd::utf8::encode_utf8_valid_utf8(f);
    vstd::utf8::encode_utf8_decode_utf8(f);
    assert(crate::bindings::lossy_text(vstd::utf8::encode_utf8(f)) == f);
    law_split_join(fields, ':');
    law_split_join(fields, '\0');
    let tail = if byteready { seq!['\r', '\n'] } else { Seq::<char>::empty() };
    assert(f =~= (j + tail) + seq!['\0']);
    let k = (j + tail).len() as int;
    assert forall|m: int| 0 <= m < k implies f[m] != '\0' by {
        if m < j.len() {
            assert(j[m] != '\0') by {
                // j holds no `\0`: the split of j on `\0` is j alone
                if j[m] == '\0' {
                    lemma_no_char_in_join(fields, ':', '\0', m);
                }
            }
        }
    }
    lemma_split_step(f, '\0', k);
    assert(f.take(k) =~= j + tail);
    assert(f.skip(k + 1) =~= Seq::<char>::empty());
    let pieces = split_on(f, '\0');
    assert(pieces =~= seq![j + tail, Seq::<char>::empty()]);
    lemma_trim_clean(j, tail);
    assert(trim(Seq::<char>::empty()) == Seq::<char>::empty());
    lemma_split_none(Seq::<char>::empty(), ':');
    assert(packet_frames(vstd::utf8::encode_utf8(f)) =~= seq![fields, seq![Seq::<char>::empty()]]);
}

/// A character that no field holds, and that is not the separator, does
/// not occur in the joined fields.
proof fn lemma_no_char_in_join(fields: Seq<Seq<char>>, sep: char, x: char, m: int)
    requires
        sep != x,
        forall|i: int, k: int| 0 <= i < fields.len() && 0 <= k < fields[i].len() ==> fields[i][k] != x,
        0 <= m < join(fields, seq![sep]).len(),
    ensures
        join(fields, seq![sep])[m] != x,
    decreases fields.len(),
{
    if fields.len() == 1 {
        assert(fields[0][m] != x);
    } else if fields.len() > 1 {
        let rest = fields.drop_first();
        let f0 = fields[0];
        assert(join(fields, seq![sep]) == f0 + seq![sep] + join(rest, seq![sep]));
        if m < f0.len() {
            assert(fields[0][m] != x);
        } else if m > f0.len() {
            assert forall|i: int, k: int| 0 <= i < rest.len() && 0 <= k < rest[i].len() implies rest[i][k] != x by {
                assert(rest[i] == fields[i + 1]);
            }
            lemma_no_char_in_join(rest, sep, x, m - f0.len() - 1);
        }
    }
}

// ---------------------------------------------------------------------------
// The server of a group
// ---------------------------------------------------------------------------

proof fn lemma_first_exists(r: nat, a: nat, k: int)
    requires
        0 <= k < server_weights().len(),
        share_reached(r, a, k),
    ensures
        exists|j: int| first_slot(r, a, j),
    decreases k,
{
    if exists|j: int| 0 <= j < k && share_reached(r, a, j) {
        let j = choose|j: int| 0 <= j < k && share_reached(r, a, j);
        lemma_first_exists(r, a, j);
    } else {
        assert(first_slot(r, a, k));
    }
}

/// Every group that has a server is hosted by one of the listed servers:
/// the first slot whose cumulative share of the total weight reaches the
/// group's fraction.
pub proof fn law_server_listed(group: Seq<char>)
    requires
        group_ok(group),
    ensures
        exists|k: int|
            0 <= k < server_weights().len() && first_slot(
                (dividend(group) % divisor(group)) as nat,
                divisor(group) as nat,
                k,
            ) && server_number(group) == server_weights()[k].0 as int,
{
    let a = divisor(group);
    let t = group_bytes(group);
    assert forall|i: int| 0 <= i < head_part(t).len() implies head_part(t)[i] != 45 by {}
    crate::server::lemma_radix36_unsigned(head_part(t));
    let r = dividend(group) % a;
    assert(a >= 1000);
    assert(0 <= r < a);
    assert(server_weights()[0].1 == 75);
    assert(weight_sum(0) == 0);
    assert(weight_sum(1) == 75);
    crate::server::lemma_weight_sum_bound(68);
    let total = total_weight();
    assert(r * total <= weight_sum(68) * a) by (nonlinear_arith)
        requires
            0 <= r < a,
            total == weight_sum(68),
            total >= 75,
    ;
    lemma_first_exists(r as nat, a as nat, 67);
    let k = slot_for(r as nat, a as nat);
    assert(first_slot(r as nat, a as nat, k));
}

/// Whether two bytes read the same in a base-36 number: the same digit
/// value (or none), and the same sign character (or none).
pub open spec fn same_reading(x: u8, y: u8) -> bool {
    digit36(x) == digit36(y) && (x == 43) == (y == 43) && (x == 45) == (y == 45)
}

/// The byte of an ASCII character after `-` and `_` become `q`.
pub open spec fn q_byte(c: char) -> u8 {
    if c == '-' || c == '_' { 113u8 } else { c as u8 }
}

proof fn lemma_digits36_same(s1: Seq<u8>, s2: Seq<u8>)
    requires
        s1.len() == s2.len(),
        forall|i: int| 0 <= i < s1.len() ==> same_reading(s1[i], s2[i]),
    ensures
        digits36(s1) == digits36(s2),
    decreases s1.len(),
{
    if s1.len() > 0 {
        lemma_digits36_same(s1.drop_last(), s2.drop_last());
        assert(same_reading(s1.last(), s2.last()));
    }
}

proof fn lemma_radix36_same(s1: Seq<u8>, s2: Seq<u8>)
    requires
        s1.len() == s2.len(),
        forall|i: int| 0 <= i < s1.len() ==> same_reading(s1[i], s2[i]),
    ensures
        radix36(s1) == radix36(s2),
{
    lemma_digits36_same(s1, s2);
    if s1.len() > 0 {
        assert(same_reading(s1[0], s2[0]));
        lemma_digits36_same(s1.drop_first(), s2.drop_first());
    }
}

/// Names whose bytes read the same at each place the server choice looks
/// at get the same server.
proof fn lemma_same_server(g1: Seq<char>, g2: Seq<char>)
    requires
        radix36(head_part(group_bytes(g1))) == radix36(head_part(group_bytes(g2))),
        (group_bytes(g1).len() > 6) == (group_bytes(g2).len() > 6),
        group_bytes(g1).len() > 6 ==> (group_bytes(g1)[5] < 128) == (group_bytes(g2)[5] < 128)
            && radix36(tail_part(group_bytes(g1))) == radix36(tail_part(group_bytes(g2))),
    ensures
        group_ok(g1) == group_ok(g2),
        server_address(g1) == server_address(g2),
{
    assert(divisor(g1) == divisor(g2));
    assert(dividend(g1) == dividend(g2));
}

/// The bytes of an ASCII name: one per character, `-` and `_` as `q`.
proof fn lemma_ascii_bytes(g: Seq<char>)
    requires
        is_ascii_chars(g),
    ensures
        group_bytes(g).len() == g.len(),
        forall|i: int| 0 <= i < g.len() ==> #[trigger] group_bytes(g)[i] == q_byte(g[i]) && q_byte(g[i]) < 128,
{
    encode_utf8_ascii(g);
    assert forall|i: int| 0 <= i < g.len() implies #[trigger] group_bytes(g)[i] == q_byte(g[i]) && q_byte(g[i]) < 128 by {
        assert(g[i] as u8 == encode_utf8(g)[i]);
        assert('\0' <= g[i] <= '\u{7f}');
    }
}

proof fn encode_utf8_ascii(g: Seq<char>)
    requires
        is_ascii_chars(g),
    ensures
        g.len() == encode_utf8(g).len(),
        forall|i: int| 0 <= i < g.len() ==> g[i] as u8 == #[trigger] encode_utf8(g)[i],
{
    vstd::utf8::is_ascii_chars_encode_utf8(g);
}

/// A name with `-` and `_` written as `q`.
pub open spec fn dashes_as_q(s: Seq<char>) -> Seq<char> {
    s.map_values(|c: char| if c == '-' || c == '_' { 'q' } else { c })
}

/// `-`, `_` and `q` are interchangeable in a group name: an ASCII name and
/// the same name with `-` and `_` written as `q` have the same server (and
/// a server exactly when the other has one).
pub proof fn law_dashes_as_q(s: Seq<char>)
    requires
        is_ascii_chars(s),
    ensures
        group_ok(s) == group_ok(dashes_as_q(s)),
        server_address(s) == server_address(dashes_as_q(s)),
{
    let d = dashes_as_q(s);
    assert(is_ascii_chars(d)) by {
        assert forall|i: int| 0 <= i < d.len() implies '\0' <= #[trigger] d[i] <= '\u{7f}' by {
            assert('\0' <= s[i] <= '\u{7f}');
        }
    }
    lemma_ascii_bytes(s);
    lemma_ascii_bytes(d);
    assert(group_bytes(s) =~= group_bytes(d)) by {
        assert forall|i: int| 0 <= i < s.len() implies group_bytes(s)[i] == group_bytes(d)[i] by {
            assert(group_bytes(s)[i] == q_byte(s[i]));
            assert(group_bytes(d)[i] == q_byte(d[i]));
        }
    }
}

/// A character in lower case, when it is an ASCII capital letter.
pub open spec fn lower_ascii(c: char) -> char {
    if 'A' <= c <= 'Z' { ((c as u32) + 32) as char } else { c }
}

/// A character in upper case, when it is an ASCII small letter.
pub open spec fn upper_ascii(c: char) -> char {
    if 'a' <= c <= 'z' { ((c as u32) - 32) as char } else { c }
}

/// Two ASCII names that differ only in the case of letters get the same
/// server.
proof fn lemma_case_blind(s: Seq<char>, t: Seq<char>)
    requires
        is_ascii_chars(s),
        is_ascii_chars(t),
        s.len() == t.len(),
        forall|i: int| 0 <= i < s.len() ==> #[trigger] lower_ascii(s[i]) == lower_ascii(t[i]),
    ensures
        group_ok(s) == group_ok(t),
        server_address(s) == server_address(t),
{
    lemma_ascii_bytes(s);
    lemma_ascii_bytes(t);
    let b1 = group_bytes(s);
    let b2 = group_bytes(t);
    assert forall|i: int| 0 <= i < s.len() implies same_reading(b1[i], b2[i]) by {
        assert(lower_ascii(s[i]) == lower_ascii(t[i]));
        assert(b1[i] == q_byte(s[i]));
        assert(b2[i] == q_byte(t[i]));
        assert('\0' <= s[i] <= '\u{7f}');
        assert('\0' <= t[i] <= '\u{7f}');
    }
    let n = s.len() as int;
    let h = if n < 5 { n } else { 5 };
    assert forall|i: int| 0 <= i < h implies same_reading(head_part(b1)[i], head_part(b2)[i]) by {
        assert(same_reading(b1[i], b2[i]));
    }
    lemma_radix36_same(head_part(b1), head_part(b2));
    if n > 6 {
        let k = if n < 9 { n } else { 9 };
        assert forall|i: int| 0 <= i < k - 6 implies same_reading(tail_part(b1)[i], tail_part(b2)[i]) by {
            assert(same_reading(b1[i + 6], b2[i + 6]));
        }
        lemma_radix36_same(tail_part(b1), tail_part(b2));
    }
    lemma_same_server(s, t);
}

/// Letter case does not matter in a group name: an ASCII name, the same in
/// lower case and the same in upper case all have the same server.
pub proof fn law_case_blind(s: Seq<char>)
    requires
        is_ascii_chars(s),
    ensures
        group_ok(s) == group_ok(s.map_values(|c: char| lower_ascii(c))),
        server_address(s) == server_address(s.map_values(|c: char| lower_ascii(c))),
        group_ok(s) == group_ok(s.map_values(|c: char| upper_ascii(c))),
        server_address(s) == server_address(s.map_values(|c: char| upper_ascii(c))),
{
    let l = s.map_values(|c: char| lower_ascii(c));
    let u = s.map_values(|c: char| upper_ascii(c));
    assert forall|i: int| 0 <= i < s.len() implies '\0' <= #[trigger] l[i] <= '\u{7f}' && '\0' <= u[i] <= '\u{7f}'
        && lower_ascii(s[i]) == lower_ascii(l[i]) && lower_ascii(s[i]) == lower_ascii(u[i]) by {
        assert('\0' <= s[i] <= '\u{7f}');
    }
    lemma_case_blind(s, l);
    lemma_case_blind(s, u);
}

/// Characters from the tenth on do not matter: an ASCII name of nine
/// characters or more has the server of its first nine.
pub proof fn law_tail_ignored(s: Seq<char>)
    requires
        is_ascii_chars(s),
        s.len() >= 9,
    ensures
        group_ok(s) == group_ok(s.take(9)),
        server_address(s) == server_address(s.take(9)),
{
    let p = s.take(9);
    lemma_ascii_bytes(s);
    lemma_ascii_bytes(p);
    let b1 = group_bytes(s);
    let b2 = group_bytes(p);
    assert forall|i: int| 0 <= i < 9 implies b1[i] == b2[i] by {
        assert(b1[i] == q_byte(s[i]));
        assert(b2[i] == q_byte(p[i]));
    }
    assert(head_part(b1) =~= head_part(b2));
    assert(tail_part(b1) =~= tail_part(b2));
    lemma_same_server(s, p);
}

/// The sixth character is never read: two ASCII names of six characters or
/// more that differ only there have the same server.
pub proof fn law_sixth_ignored(s: Seq<char>, t: Seq<char>)
    requires
        is_ascii_chars(s),
        is_ascii_chars(t),
        s.len() == t.len(),
        s.len() >= 6,
        forall|i: int| 0 <= i < s.len() && i != 5 ==> s[i] == t[i],
    ensures
        group_ok(s) == group_ok(t),
        server_address(s) == server_address(t),
{
    lemma_ascii_bytes(s);
    lemma_ascii_bytes(t);
    let b1 = group_bytes(s);
    let b2 = group_bytes(t);
    assert forall|i: int| 0 <= i < s.len() && i != 5 implies b1[i] == b2[i] by {
        assert(b1[i] == q_byte(s[i]));
        assert(b2[i] == q_byte(t[i]));
    }
    assert(b1[5] == q_byte(s[5]) && b2[5] == q_byte(t[5]));
    assert(head_part(b1) =~= head_part(b2));
    if s.len() > 6 {
        assert(tail_part(b1) =~= tail_part(b2));
    }
    lemma_same_server(s, t);
}

/// A six-character ASCII name has the server of its first five characters.
pub proof fn law_six_as_five(s: Seq<char>)
    requires
        is_ascii_chars(s),
        s.len() == 6,
    ensures
        group_ok(s) == group_ok(s.take(5)),
        server_address(s) == server_address(s.take(5)),
{
    let p = s.take(5);
    lemma_ascii_bytes(s);
    lemma_ascii_bytes(p);
    let b1 = group_bytes(s);
    let b2 = group_bytes(p);
    assert forall|i: int| 0 <= i < 5 implies b1[i] == b2[i] by {
        assert(b1[i] == q_byte(s[i]));
        assert(b2[i] == q_byte(p[i]));
    }
    assert(head_part(b1) =~= head_part(b2));
    lemma_same_server(s, p);
}

} // verus!
