//! The join handshake: upgrade validation, admission parameters, and
//! authenticated admission into a room.
//!
//! Admission parameters arrive in the socket URL's query. Failures are
//! reported by closing the fresh socket with a close code and a short
//! JSON reason; the transport layer performs the close.

use vstd::prelude::*;
use vstd::string::*;
use crate::color::{clone_string, Color, ParseColorError};
use crate::commands::{announces_view, Announce, AnnounceView};
use crate::digits::{dec_rep, fmt_u64_dec, is_digit_b, p_dec_u64};
use crate::state::{
    addrs_of, is_seed_canvas, public_view, App, CanvasEntry, Room, RoomUser,
};
use crate::user::AccessLevel;

verus! {

/// The protocol generation this server speaks.
pub const PROTOCOL_VERSION: u64 = 1;

/// Admission parameters, validated: what a connection needs to join.
pub struct Receive {
    pub room_name: String,
    pub password: Option<String>,
    pub username: String,
    pub color: Color,
    pub canvas: Option<u16>,
}

/// Why a join was refused. The variants carry what their wire reason
/// reports.
#[derive(Debug)]
pub enum JoinError {
    WebsocketError,
    ProtocolError { server: u64 },
    RoomMissing,
    RoomInvalidLength { min_len: u16, max_len: u16, specified_len: u64 },
    UsernameMissing,
    UsernameInvalidLength { min_len: u16, max_len: u16, specified_len: u64 },
    ColorInvalid,
    PasswordRequired,
    PasswordIncorrect,
}

impl JoinError {
    /// The close code a refused join ends the socket with.
    pub open spec fn code_spec(self) -> u16 {
        match self {
            JoinError::WebsocketError => 1011,
            JoinError::ProtocolError { .. } => 4999,
            JoinError::RoomMissing => 4000,
            JoinError::RoomInvalidLength { .. } => 4002,
            JoinError::UsernameMissing => 4010,
            JoinError::UsernameInvalidLength { .. } => 4012,
            JoinError::ColorInvalid => 4021,
            JoinError::PasswordRequired => 4030,
            JoinError::PasswordIncorrect => 4033,
        }
    }

    /// The close code a refused join ends the socket with.
    pub fn close_code(&self) -> (r: u16)
        ensures
            r == self.code_spec(),
    {
        match self {
            JoinError::WebsocketError => 1011,
            JoinError::ProtocolError { .. } => 4999,
            JoinError::RoomMissing => 4000,
            JoinError::RoomInvalidLength { .. } => 4002,
            JoinError::UsernameMissing => 4010,
            JoinError::UsernameInvalidLength { .. } => 4012,
            JoinError::ColorInvalid => 4021,
            JoinError::PasswordRequired => 4030,
            JoinError::PasswordIncorrect => 4033,
        }
    }

    /// The JSON reason a refused join carries.
    pub open spec fn reason_spec(self) -> Seq<char> {
        match self {
            JoinError::WebsocketError => crate::codec::lit("{\"type\":\"websocket_error\"}"),
            JoinError::ProtocolError { server } => crate::codec::lit(
                "{\"type\":\"protocol_error\",\"server\":",
            ) + dec_rep(server as nat) + crate::codec::lit("}"),
            JoinError::RoomMissing => crate::codec::lit("{\"type\":\"room_missing\"}"),
            JoinError::RoomInvalidLength { min_len, max_len, specified_len } => crate::codec::lit(
                "{\"type\":\"room_invalid_length\",\"min_len\":",
            ) + dec_rep(min_len as nat) + crate::codec::lit(",\"max_len\":") + dec_rep(
                max_len as nat,
            ) + crate::codec::lit(",\"specified_len\":") + dec_rep(specified_len as nat)
                + crate::codec::lit("}"),
            JoinError::UsernameMissing => crate::codec::lit("{\"type\":\"username_missing\"}"),
            JoinError::UsernameInvalidLength { min_len, max_len, specified_len } =>
                crate::codec::lit("{\"type\":\"username_invalid_length\",\"min_len\":")
                + dec_rep(min_len as nat) + crate::codec::lit(",\"max_len\":") + dec_rep(
                max_len as nat,
            ) + crate::codec::lit(",\"specified_len\":") + dec_rep(specified_len as nat)
                + crate::codec::lit("}"),
            JoinError::ColorInvalid => crate::codec::lit("{\"type\":\"color_invalid\"}"),
            JoinError::PasswordRequired => crate::codec::lit("{\"type\":\"password_required\"}"),
            JoinError::PasswordIncorrect => crate::codec::lit(
                "{\"type\":\"password_incorrect\"}",
            ),
        }
    }

    /// Serializes the JSON reason a refused join carries.
    pub fn reason(&self) -> (r: String)
        ensures
            r@ == self.reason_spec(),
    {
        let mut out = String::new();
        match self {
            JoinError::WebsocketError => {
                out.append("{\"type\":\"websocket_error\"}");
            },
            JoinError::ProtocolError { server } => {
                out.append("{\"type\":\"protocol_error\",\"server\":");
                fmt_u64_dec(*server, &mut out);
                out.append("}");
            },
            JoinError::RoomMissing => {
                out.append("{\"type\":\"room_missing\"}");
            },
            JoinError::RoomInvalidLength { min_len, max_len, specified_len } => {
                out.append("{\"type\":\"room_invalid_length\",\"min_len\":");
                fmt_u64_dec(*min_len as u64, &mut out);
                out.append(",\"max_len\":");
                fmt_u64_dec(*max_len as u64, &mut out);
                out.append(",\"specified_len\":");
                fmt_u64_dec(*specified_len, &mut out);
                out.append("}");
            },
            JoinError::UsernameMissing => {
                out.append("{\"type\":\"username_missing\"}");
            },
            JoinError::UsernameInvalidLength { min_len, max_len, specified_len } => {
                out.append("{\"type\":\"username_invalid_length\",\"min_len\":");
                fmt_u64_dec(*min_len as u64, &mut out);
                out.append(",\"max_len\":");
                fmt_u64_dec(*max_len as u64, &mut out);
                out.append(",\"specified_len\":");
                fmt_u64_dec(*specified_len, &mut out);
                out.append("}");
            },
            JoinError::ColorInvalid => {
                out.append("{\"type\":\"color_invalid\"}");
            },
            JoinError::PasswordRequired => {
                out.append("{\"type\":\"password_required\"}");
            },
            JoinError::PasswordIncorrect => {
                out.append("{\"type\":\"password_incorrect\"}");
            },
        }
        proof {
            assert(out@ =~= self.reason_spec());
        }
        out
    }
}

/// The lowercase form of an ASCII letter; other characters unchanged.
pub open spec fn ascii_lower(c: char) -> char {
    if 65 <= c as int && c as int <= 90 {
        ((c as int + 32) as u8) as char
    } else {
        c
    }
}

/// Case-insensitive ASCII equality of two character strings.
pub open spec fn eq_ignore_case(a: Seq<char>, b: Seq<char>) -> bool {
    a.len() == b.len() && (forall|i: int| 0 <= i < a.len() ==> ascii_lower(#[trigger] a[i])
        == ascii_lower(b[i]))
}

fn ascii_lower_exec(c: char) -> (r: char)
    ensures
        r == ascii_lower(c),
{
    let u = c as u32;
    if 65 <= u && u <= 90 {
        let l = (u + 32) as u8;
        l as char
    } else {
        c
    }
}

/// Whether two strings are equal up to ASCII case.
pub fn str_eq_ignore_case(a: &str, b: &str) -> (r: bool)
    ensures
        r == eq_ignore_case(a@, b@),
{
    let na = a.unicode_len();
    let nb = b.unicode_len();
    if na != nb {
        return false;
    }
    let mut i: usize = 0;
    while i < na
        invariant
            i <= na,
            na == a@.len(),
            na == b@.len(),
            forall|j: int| 0 <= j < i ==> ascii_lower(#[trigger] a@[j]) == ascii_lower(b@[j]),
        decreases na - i,
    {
        if ascii_lower_exec(a.get_char(i)) != ascii_lower_exec(b.get_char(i)) {
            return false;
        }
        i = i + 1;
    }
    true
}

/// Whether the `Connection` header value lists `upgrade`: a
/// delimiter-bounded run equal to it up to ASCII case. (A matching run
/// cannot contain a space or comma, so this is exactly a piece of the
/// value split at spaces and commas.)
pub open spec fn connection_lists_upgrade(s: Seq<char>) -> bool {
    exists|a: int|
        {
            &&& 0 <= a
            &&& a + 7 <= s.len()
            &&& (a == 0 || s[a - 1] == ' ' || s[a - 1] == ',')
            &&& (a + 7 == s.len() || s[a + 7] == ' ' || s[a + 7] == ',')
            &&& eq_ignore_case(#[trigger] s.subrange(a, a + 7), crate::codec::lit("upgrade"))
        }
}

/// Whether some comma- or space-separated piece of the `Connection`
/// header value reads `upgrade`, case-insensitively.
pub fn header_lists_upgrade(s: &str) -> (r: bool)
    ensures
        r == connection_lists_upgrade(s@),
{
    let n = s.unicode_len();
    let chars = crate::codec::str_to_chars(s);
    proof {
        reveal_strlit("upgrade");
    }
    if n < 7 {
        proof {
            assert(!connection_lists_upgrade(s@));
        }
        return false;
    }
    let mut a: usize = 0;
    while a <= n - 7
        invariant
            a <= n,
            n >= 7,
            n == s@.len(),
            chars@ == s@,
            forall|w: int|
                0 <= w < a ==> !({
                    &&& w + 7 <= s@.len()
                    &&& (w == 0 || s@[w - 1] == ' ' || s@[w - 1] == ',')
                    &&& (w + 7 == s@.len() || s@[w + 7] == ' ' || s@[w + 7] == ',')
                    &&& eq_ignore_case(
                        #[trigger] s@.subrange(w, w + 7),
                        crate::codec::lit("upgrade"),
                    )
                }),
        decreases n - a,
    {
        proof {
            reveal_strlit("upgrade");
        }
        let left_ok = a == 0 || chars[a - 1] == ' ' || chars[a - 1] == ',';
        let right_ok = a + 7 == n || chars[a + 7] == ' ' || chars[a + 7] == ',';
        if left_ok && right_ok {
            let upg: [char; 7] = ['u', 'p', 'g', 'r', 'a', 'd', 'e'];
            let mut m = true;
            let mut w: usize = 0;
            while w < 7
                invariant
                    w <= 7,
                    a + 7 <= n,
                    n == s@.len(),
                    chars@ == s@,
                    upg@ =~= crate::codec::lit("upgrade"),
                    m == (forall|j: int| 0 <= j < w ==> ascii_lower(#[trigger] s@[a + j])
                        == ascii_lower(crate::codec::lit("upgrade")[j])),
                decreases 7 - w,
            {
                let same = ascii_lower_exec(chars[a + w]) == ascii_lower_exec(upg[w]);
                proof {
                    if !same {
                        assert(ascii_lower(s@[a + w as int]) != ascii_lower(
                            crate::codec::lit("upgrade")[w as int],
                        ));
                    }
                }
                m = m && same;
                w = w + 1;
            }
            if m {
                proof {
                    assert(eq_ignore_case(
                        s@.subrange(a as int, a + 7),
                        crate::codec::lit("upgrade"),
                    )) by {
                        assert forall|j: int| 0 <= j < 7 implies ascii_lower(
                            #[trigger] s@.subrange(a as int, a + 7)[j],
                        ) == ascii_lower(crate::codec::lit("upgrade")[j]) by {
                            assert(s@.subrange(a as int, a + 7)[j] == s@[a + j]);
                        }
                    }
                    assert(connection_lists_upgrade(s@));
                }
                return true;
            }
            proof {
                assert(!eq_ignore_case(
                    s@.subrange(a as int, a + 7),
                    crate::codec::lit("upgrade"),
                )) by {
                    let j = choose|j: int|
                        0 <= j < 7 && ascii_lower(#[trigger] s@[a + j]) != ascii_lower(
                            crate::codec::lit("upgrade")[j],
                        );
                    assert(s@.subrange(a as int, a + 7)[j] == s@[a + j]);
                }
            }
        }
        a = a + 1;
    }
    proof {
        assert(!connection_lists_upgrade(s@));
    }
    false
}

/// Whether the whole acceptability check of an upgrade request passes:
/// method `GET`, HTTP 1.1 or later, `Connection` listing `upgrade`,
/// `Upgrade` reading `websocket`, socket version `13`, and a key.
pub open spec fn upgrade_acceptable(
    method: Seq<char>,
    http11_or_later: bool,
    connection: Option<Seq<char>>,
    upgrade: Option<Seq<char>>,
    ws_version: Option<Seq<char>>,
    has_key: bool,
) -> bool {
    &&& method == crate::codec::lit("GET")
    &&& http11_or_later
    &&& match connection {
        Option::Some(c) => connection_lists_upgrade(c),
        Option::None => false,
    }
    &&& match upgrade {
        Option::Some(u) => eq_ignore_case(u, crate::codec::lit("websocket")),
        Option::None => false,
    }
    &&& match ws_version {
        Option::Some(v) => v == crate::codec::lit("13"),
        Option::None => false,
    }
    &&& has_key
}

/// Decides whether an upgrade request may become a socket, from the
/// request's method, version and header values.
pub fn is_valid_request(
    method: &str,
    http11_or_later: bool,
    connection: Option<&str>,
    upgrade: Option<&str>,
    ws_version: Option<&str>,
    has_key: bool,
) -> (r: bool)
    ensures
        r == upgrade_acceptable(
            method@,
            http11_or_later,
            match connection {
                Option::Some(c) => Option::Some(c@),
                Option::None => Option::<Seq<char>>::None,
            },
            match upgrade {
                Option::Some(u) => Option::Some(u@),
                Option::None => Option::<Seq<char>>::None,
            },
            match ws_version {
                Option::Some(v) => Option::Some(v@),
                Option::None => Option::<Seq<char>>::None,
            },
            has_key,
        ),
{
    if !crate::state::str_eq(method, "GET") {
        proof {
            reveal_strlit("GET");
        }
        return false;
    }
    if !http11_or_later {
        return false;
    }
    let conn_ok = match connection {
        Option::Some(c) => header_lists_upgrade(c),
        Option::None => false,
    };
    if !conn_ok {
        return false;
    }
    let upg_ok = match upgrade {
        Option::Some(u) => str_eq_ignore_case(u, "websocket"),
        Option::None => false,
    };
    if !upg_ok {
        proof {
            reveal_strlit("websocket");
        }
        return false;
    }
    let ver_ok = match ws_version {
        Option::Some(v) => crate::state::str_eq(v, "13"),
        Option::None => false,
    };
    if !ver_ok {
        proof {
            reveal_strlit("13");
        }
        return false;
    }
    has_key
}

/// Whether a query value names this server's protocol generation: an
/// optional plus sign, then the decimal value of the generation.
pub open spec fn protocol_ok(s: Seq<char>) -> bool {
    let start: int = if s.len() > 0 && s[0] == '+' {
        1
    } else {
        0
    };
    match p_dec_u64(s, start) {
        Option::Some((v, j)) => j == s.len() && v == PROTOCOL_VERSION,
        Option::None => false,
    }
}

fn protocol_matches(s: &str) -> (r: bool)
    ensures
        r == protocol_ok(s@),
{
    let chars = crate::codec::str_to_chars(s);
    let start: usize = if chars.len() > 0 && chars[0] == '+' {
        1
    } else {
        0
    };
    match crate::digits::e_dec_u64(&chars, start) {
        Option::Some((v, j)) => j == chars.len() && v == PROTOCOL_VERSION,
        Option::None => false,
    }
}

/// The `u16` value of a whole query string: an optional plus sign, then
/// decimal digits, nothing else.
pub open spec fn u16_of_text(s: Seq<char>) -> Option<u16> {
    let start: int = if s.len() > 0 && s[0] == '+' {
        1
    } else {
        0
    };
    match crate::codec::p_u16(s, start) {
        Option::Some((v, j)) => if j == s.len() {
            Option::Some(v)
        } else {
            Option::None
        },
        Option::None => Option::None,
    }
}

fn parse_u16_text(s: &str) -> (r: Option<u16>)
    ensures
        r == u16_of_text(s@),
{
    let chars = crate::codec::str_to_chars(s);
    let start: usize = if chars.len() > 0 && chars[0] == '+' {
        1
    } else {
        0
    };
    match crate::codec::e_u16(&chars, start) {
        Option::Some((v, j)) => if j == chars.len() {
            Option::Some(v)
        } else {
            Option::None
        },
        Option::None => Option::None,
    }
}

/// Validates admission parameters against the registry: protocol, room
/// name, username, color, canvas, and the room's password if the room
/// already exists. On success, the validated parameters; on failure, the
/// error whose close code and reason refuse the join.
pub fn validate_join(
    app: &App,
    protocol: Option<String>,
    room: Option<String>,
    username: Option<String>,
    color: Option<String>,
    canvas: Option<String>,
    password: Option<String>,
) -> (r: Result<Receive, JoinError>)
    requires
        app.wf(),
    ensures
        ({
            let proto_ok = match protocol {
                Option::Some(p) => protocol_ok(p@),
                Option::None => false,
            };
            let room_len = match room {
                Option::Some(t) => t@.len(),
                Option::None => 0,
            };
            let user_len = match username {
                Option::Some(t) => t@.len(),
                Option::None => 0,
            };
            let color_bad = match color {
                Option::Some(c) => crate::color::color_normalized(c@) is None,
                Option::None => false,
            };
            let pw = match password {
                Option::Some(p) => if p@.len() > 0 {
                    Option::Some(p)
                } else {
                    Option::<String>::None
                },
                Option::None => Option::<String>::None,
            };
            let room_known = room is Some && app.has_room(room->Some_0@);
            let room_pw = if room_known {
                app.rooms@[app.room_index(room->Some_0@)].room.config.password
            } else {
                Option::<String>::None
            };
            if !proto_ok {
                r == Err::<Receive, JoinError>(
                    JoinError::ProtocolError { server: PROTOCOL_VERSION },
                )
            } else if room_len == 0 {
                r == Err::<Receive, JoinError>(JoinError::RoomMissing)
            } else if room_len < 3 || room_len > 32 {
                r matches Err(JoinError::RoomInvalidLength {
                    min_len: 3,
                    max_len: 32,
                    specified_len,
                }) && specified_len == room_len
            } else if user_len == 0 {
                r == Err::<Receive, JoinError>(JoinError::UsernameMissing)
            } else if user_len > 32 {
                r matches Err(JoinError::UsernameInvalidLength {
                    min_len: 1,
                    max_len: 32,
                    specified_len,
                }) && specified_len == user_len
            } else if color_bad {
                r == Err::<Receive, JoinError>(JoinError::ColorInvalid)
            } else if room_known && room_pw is Some && pw is None {
                r == Err::<Receive, JoinError>(JoinError::PasswordRequired)
            } else if room_known && room_pw is Some && pw is Some
                && room_pw->Some_0@ != pw->Some_0@ {
                r == Err::<Receive, JoinError>(JoinError::PasswordIncorrect)
            } else {
                r matches Ok(req) && req.room_name@ == room->Some_0@ && req.username@
                    == username->Some_0@ && crate::element::opt_str_view(req.password)
                    == crate::element::opt_str_view(pw) && req.canvas == (match canvas {
                    Option::Some(c) => u16_of_text(c@),
                    Option::None => Option::<u16>::None,
                }) && (match color {
                    Option::Some(c) => crate::color::color_normalized(c@) == Option::Some(
                        req.color@,
                    ),
                    Option::None => crate::color::palette_member(req.color@),
                }) && req.color.wf()
            }
        }),
{
    let proto_ok = match &protocol {
        Option::Some(p) => protocol_matches(p.as_str()),
        Option::None => false,
    };
    if !proto_ok {
        return Err(JoinError::ProtocolError { server: PROTOCOL_VERSION });
    }
    let room_name = match room {
        Option::Some(t) => t,
        Option::None => {
            return Err(JoinError::RoomMissing);
        },
    };
    let room_len = room_name.unicode_len();
    if room_len == 0 {
        return Err(JoinError::RoomMissing);
    }
    if room_len < 3 || room_len > 32 {
        return Err(
            JoinError::RoomInvalidLength {
                min_len: 3,
                max_len: 32,
                specified_len: room_len as u64,
            },
        );
    }
    let user_name = match username {
        Option::Some(t) => t,
        Option::None => {
            return Err(JoinError::UsernameMissing);
        },
    };
    let user_len = user_name.unicode_len();
    if user_len == 0 {
        return Err(JoinError::UsernameMissing);
    }
    if user_len > 32 {
        return Err(
            JoinError::UsernameInvalidLength {
                min_len: 1,
                max_len: 32,
                specified_len: user_len as u64,
            },
        );
    }
    let chosen_color = match &color {
        Option::Some(c) => {
            match Color::new(c.as_str()) {
                Ok(col) => col,
                Err(ParseColorError) => {
                    return Err(JoinError::ColorInvalid);
                },
            }
        },
        Option::None => Color::get_random_color(),
    };
    let chosen_canvas = match &canvas {
        Option::Some(c) => parse_u16_text(c.as_str()),
        Option::None => None,
    };
    let pw = match password {
        Option::Some(p) => {
            if p.unicode_len() > 0 {
                Some(p)
            } else {
                None
            }
        },
        Option::None => None,
    };
    match app.room_pos(room_name.as_str()) {
        Some(k) => {
            proof {
                app.lemma_room_index_unique(room_name@, k as int);
            }
            if app.rooms[k].room.requires_password() {
                match &pw {
                    Option::None => {
                        return Err(JoinError::PasswordRequired);
                    },
                    Option::Some(p) => {
                        if !app.rooms[k].room.is_password_correct(Some(p)) {
                            return Err(JoinError::PasswordIncorrect);
                        }
                    },
                }
            }
        },
        None => {},
    }
    Ok(
        Receive {
            room_name,
            password: pw,
            username: user_name,
            color: chosen_color,
            canvas: chosen_canvas,
        },
    )
}

/// Some member of the roster holds `Admin`.
pub open spec fn has_admin_in(users: Seq<RoomUser>) -> bool {
    exists|i: int| 0 <= i < users.len() && (#[trigger] users[i]).access_level
        == AccessLevel::Admin
}

/// The roster position of the admin (meaningful under `has_admin_in`).
pub open spec fn admin_in(users: Seq<RoomUser>) -> int {
    choose|i: int|
        0 <= i < users.len() && (#[trigger] users[i]).access_level == AccessLevel::Admin
}

/// The member a validated join admits: the requested canvas (else the
/// admin's, else the first), and `Admin` exactly when the room has no
/// admin, else the room's default level.
pub open spec fn joined_user(
    req: Receive,
    addr: u64,
    uuid: u128,
    room0_users: Seq<RoomUser>,
    default_level: AccessLevel,
) -> RoomUser {
    RoomUser {
        addr,
        uuid,
        username: req.username,
        color: req.color,
        canvas: match req.canvas {
            Option::Some(c) => c,
            Option::None => if has_admin_in(room0_users) {
                room0_users[admin_in(room0_users)].canvas
            } else {
                0
            },
        },
        access_level: if !has_admin_in(room0_users) {
            AccessLevel::Admin
        } else {
            default_level
        },
    }
}

/// Performs a validated join: finds or creates the room (adopting the
/// join's password on creation), places the newcomer on their requested
/// canvas (else the admin's, else the first), elects them admin exactly
/// when the room has none, and adds them. Returns false, changing
/// nothing further, when the connection id or identity is already taken.
pub fn join_room(
    app: &mut App,
    req: Receive,
    addr: u64,
    uuid: u128,
    out: &mut Vec<Announce>,
) -> (ok: bool)
    requires
        old(app).wf(),
    ensures
        final(app).wf(),
        old(app).admined_all() ==> final(app).admined_all(),
        final(app).has_room(req.room_name@),
        ({
            let had = old(app).has_room(req.room_name@);
            let k = final(app).room_index(req.room_name@);
            &&& 0 <= k < final(app).rooms@.len()
            &&& final(app).rooms@[k].name@ == req.room_name@
            &&& (had ==> k == old(app).room_index(req.room_name@))
            &&& final(app).rooms@.len() == old(app).rooms@.len() + (if had {
                0int
            } else {
                1int
            })
            &&& (forall|j: int| 0 <= j < old(app).rooms@.len() && j != k
                ==> #[trigger] final(app).rooms@[j] == old(app).rooms@[j])
        }),
        ({
            let had = old(app).has_room(req.room_name@);
            let k = final(app).room_index(req.room_name@);
            let room2 = final(app).rooms@[k].room;
            !had ==> room2.config.password == req.password
                && room2.config.new_users_default_editor == false
        }),
        // the join is refused exactly when the room already holds this
        // connection id or this identity
        ({
            let had = old(app).has_room(req.room_name@);
            let k = final(app).room_index(req.room_name@);
            ok == !(had && (old(app).rooms@[k].room.has_addr(addr)
                || old(app).rooms@[k].room.has_uuid(uuid)))
        }),
        !ok ==> ({
            let had = old(app).has_room(req.room_name@);
            let k = final(app).room_index(req.room_name@);
            let room2 = final(app).rooms@[k].room;
            let room0_users = if had {
                old(app).rooms@[k].room.users@
            } else {
                Seq::<RoomUser>::empty()
            };
            let room0_canvases = if had {
                old(app).rooms@[k].room.canvases@
            } else {
                Seq::<CanvasEntry>::empty()
            };
            room2.users@ == room0_users && room2.canvases@ == room0_canvases && *final(out)
                == *old(out)
        }),
        ok ==> ({
            let had = old(app).has_room(req.room_name@);
            let k = final(app).room_index(req.room_name@);
            let room2 = final(app).rooms@[k].room;
            let room0_users = if had {
                old(app).rooms@[k].room.users@
            } else {
                Seq::<RoomUser>::empty()
            };
            let default_level = if had {
                old(app).rooms@[k].room.config.default_access_level()
            } else {
                AccessLevel::View
            };
            let new_user = joined_user(req, addr, uuid, room0_users, default_level);
            &&& room2.users@ == room0_users.push(new_user)
            &&& room2.admined()
            &&& room2.has_canvas(new_user.canvas)
            &&& announces_view(final(out)@) == announces_view(old(out)@) + seq![
                AnnounceView {
                    targets: addrs_of(room0_users),
                    id: Option::None,
                    payload: crate::commands::PayloadView::Event(
                        crate::commands::AnnounceTypeView::Join {
                            user: public_view(new_user),
                        },
                    ),
                },
                AnnounceView {
                    targets: seq![addr],
                    id: Option::None,
                    payload: crate::commands::PayloadView::Event(
                        crate::commands::AnnounceTypeView::OnJoin {
                            user: public_view(new_user),
                            users: room2.users@.map_values(|u: RoomUser| public_view(u)),
                            elements: room2.canvases@[room2.canvas_index(
                                new_user.canvas,
                            )].canvas.elements@.map_values(|e: crate::element::Element| e@),
                        },
                    ),
                },
            ]
        }),
{
    let ghost greq = req;
    let Receive { room_name, password, username, color, canvas } = req;
    let k = app.get_or_insert_room(room_name.as_str(), password);
    proof {
        if !old(app).has_room(room_name@) {
            assert(forall|j: int| 0 <= j < old(app).rooms@.len() ==> app.rooms@.subrange(
                0,
                old(app).rooms@.len() as int,
            )[j] == #[trigger] old(app).rooms@[j]);
            assert(forall|j: int| 0 <= j < old(app).rooms@.len()
                ==> #[trigger] app.rooms@[j] == old(app).rooms@[j]);
        }
    }
    let (has_admin, admin_canvas) = match app.rooms[k].room.get_admin() {
        Some(a) => {
            proof {
                assert(exists|i: int|
                    0 <= i < app.rooms@[k as int].room.users@.len()
                        && app.rooms@[k as int].room.users@[i].canvas == a.canvas
                        && (#[trigger] app.rooms@[k as int].room.users@[i]).access_level
                        == AccessLevel::Admin);
            }
            (true, a.canvas)
        },
        None => (false, 0u16),
    };
    let chosen_canvas = match canvas {
        Some(c) => c,
        None => admin_canvas,
    };
    let access_level = if !has_admin {
        AccessLevel::Admin
    } else {
        app.rooms[k].room.get_config().get_default_access_level()
    };
    let addr_taken = match app.rooms[k].room.user_pos_from_addr(addr) {
        Some(_) => true,
        None => false,
    };
    let uuid_taken = match app.rooms[k].room.user_pos(uuid) {
        Some(_) => true,
        None => false,
    };
    proof {
        assert(room_name@ == greq.room_name@);
        assert(app.room_index(room_name@) == k as int);
    }
    let ghost had0 = old(app).has_room(room_name@);
    proof {
        if had0 {
            assert(old(app).rooms@[k as int].room == app.rooms@[k as int].room);
        } else {
            // a fresh room holds nobody
            assert(!app.rooms@[k as int].room.has_addr(addr)) by {
                if app.rooms@[k as int].room.has_addr(addr) {
                    let i = choose|i: int|
                        0 <= i < app.rooms@[k as int].room.users@.len() && (
                        #[trigger] app.rooms@[k as int].room.users@[i]).addr == addr;
                }
            }
            assert(!app.rooms@[k as int].room.has_uuid(uuid)) by {
                if app.rooms@[k as int].room.has_uuid(uuid) {
                    let i = choose|i: int|
                        0 <= i < app.rooms@[k as int].room.users@.len() && (
                        #[trigger] app.rooms@[k as int].room.users@[i]).uuid == uuid;
                }
            }
        }
    }
    if addr_taken || uuid_taken {
        return false;
    }
    let new_user = RoomUser {
        addr,
        uuid,
        username,
        color,
        canvas: chosen_canvas,
        access_level,
    };
    proof {
        let room0_users = app.rooms@[k as int].room.users@;
        assert(app.rooms@[k as int].room.has_admin_user() == has_admin_in(room0_users));
        assert(access_level == AccessLevel::Admin <==> !has_admin_in(room0_users)) by {
            if has_admin {
                assert(app.rooms@[k as int].room.config.default_access_level()
                    != AccessLevel::Admin);
            }
        }
        if has_admin {
            // the admin the lookup found is the admin of the roster
            let w = admin_in(room0_users);
            assert(room0_users[w].access_level == AccessLevel::Admin);
            let i = choose|i: int|
                0 <= i < room0_users.len() && room0_users[i].canvas == admin_canvas
                    && (#[trigger] room0_users[i]).access_level == AccessLevel::Admin;
            assert(room0_users[i].canvas == admin_canvas && room0_users[i].access_level
                == AccessLevel::Admin);
            if i != w {
                if i < w {
                    assert(!(room0_users[i].access_level == AccessLevel::Admin
                        && room0_users[w].access_level == AccessLevel::Admin));
                } else {
                    assert(!(room0_users[w].access_level == AccessLevel::Admin
                        && room0_users[i].access_level == AccessLevel::Admin));
                }
            }
            assert(room0_users[w].canvas == admin_canvas);
        }
    }
    let ghost room0_users = app.rooms@[k as int].room.users@;
    let ghost dl = app.rooms@[k as int].room.config.default_access_level();
    app.rooms[k].room.add_user(new_user, out);
    proof {
        app.lemma_room_index_unique(room_name@, k as int);
        if old(app).has_room(room_name@) {
            assert(room0_users == old(app).rooms@[k as int].room.users@);
            assert(dl == old(app).rooms@[k as int].room.config.default_access_level());
        } else {
            assert(room0_users =~= Seq::<RoomUser>::empty());
            assert(dl == AccessLevel::View);
        }
        assert(new_user == joined_user(greq, addr, uuid, room0_users, if old(app).has_room(
            room_name@,
        ) {
            old(app).rooms@[k as int].room.config.default_access_level()
        } else {
            AccessLevel::View
        }));
        assert forall|j: int| 0 <= j < app.rooms@.len() implies (
        #[trigger] app.rooms@[j]).room.wf() && (old(app).admined_all()
            ==> app.rooms@[j].room.admined()) by {
            if j != k {
                assert(app.rooms@[j] == old(app).rooms@[j]);
            }
        }
        assert forall|a: int, b: int| 0 <= a < b < app.rooms@.len() implies (
        #[trigger] app.rooms@[a]).name@ != (#[trigger] app.rooms@[b]).name@ by {
            if old(app).has_room(room_name@) {
                assert(app.rooms@[a].name@ == old(app).rooms@[a].name@);
                assert(app.rooms@[b].name@ == old(app).rooms@[b].name@);
            } else {
                if b < old(app).rooms@.len() {
                    assert(app.rooms@[a].name@ == old(app).rooms@[a].name@);
                    assert(app.rooms@[b].name@ == old(app).rooms@[b].name@);
                } else {
                    assert(b == old(app).rooms@.len());
                    assert(app.rooms@[b].name@ == room_name@);
                    assert(app.rooms@[a].name@ == old(app).rooms@[a].name@);
                    assert(forall|w: int| 0 <= w < old(app).rooms@.len() ==> (#[trigger] old(
                        app,
                    ).rooms@[w]).name@ != room_name@);
                }
            }
        }
    }
    true
}

} // verus!
