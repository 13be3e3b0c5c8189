//! The wire protocol codec.
//!
//! One transport message carries one frame. The first byte of a frame is an
//! ASCII command tag and the rest is the payload, except that an `Init` frame
//! is one JSON object whose opening brace is itself the tag. Inbound frames
//! parse to [`ClientMessage`]; outbound [`ServerMessage`] values serialize to
//! frames. The codec also translates mouse messages into the escape-sequence
//! reports legacy terminals expect.

use vstd::prelude::*;

use crate::json;
use crate::json::spec_parse_string;
use crate::json::spec_parse_u16;
use crate::json::spec_parse_u8;
use crate::json::spec_parse_bool;
use crate::json::spec_parse_null;
use crate::json::spec_skip_value;
use crate::json::spec_skip_ws;
use crate::json::lemma_skip_ws_bounds;
use crate::json::lemma_parse_string_bounds;
use crate::json::lemma_parse_u16_bounds;
use crate::json::lemma_parse_u8_bounds;
use crate::json::spec_u16_dec;
use crate::json::lemma_skip_ws_at_non_ws;
use crate::json::lemma_parse_u16_of_dec;
use crate::json::lemma_parse_string_of_plain_ascii;
use crate::json::lemma_u16_dec_shape;
use crate::json::is_ws_byte;
use crate::json::is_digit_byte;
use vstd::utf8::decode_utf8;
use vstd::utf8::encode_utf8;

verus! {

/// Client-to-server tag: raw input bytes.
pub const INPUT: u8 = 0x30;

/// Client-to-server tag: resize request, JSON payload.
pub const RESIZE_TERMINAL: u8 = 0x31;

/// Client-to-server tag: pause output delivery, empty payload.
pub const PAUSE: u8 = 0x32;

/// Client-to-server tag: resume output delivery, empty payload.
pub const RESUME: u8 = 0x33;

/// Client-to-server tag: mouse click, JSON payload.
pub const MOUSE_EVENT: u8 = 0x34;

/// Client-to-server tag: mouse drag, JSON payload.
pub const MOUSE_DRAG_EVENT: u8 = 0x35;

/// Client-to-server tag: the opening brace of an `Init` object; the whole
/// frame, tag included, is the JSON.
pub const JSON_DATA: u8 = 0x7b;

/// Server-to-client tag: raw output bytes.
pub const OUTPUT: u8 = 0x30;

/// Server-to-client tag: window title text.
pub const SET_WINDOW_TITLE: u8 = 0x31;

/// Server-to-client tag: preferences JSON text.
pub const SET_PREFERENCES: u8 = 0x32;

/// Why an inbound frame was refused. A parse error is never fatal: the
/// session drops the frame and goes on.
#[derive(Debug, Clone, Copy, PartialEq, Eq, Structural)]
pub enum ProtocolError {
    /// The frame held no bytes at all.
    Empty,
    /// The first byte was no known command tag; it is carried here.
    UnknownTag(u8),
    /// The tag was known but the JSON payload did not decode.
    BadPayload,
}

/// The first `Init` frame of a session: requested size and credential.
#[derive(Debug)]
pub struct InitMessage {
    /// Requested columns; zero (the default when absent) asks for 80.
    pub columns: u16,
    /// Requested rows; zero (the default when absent) asks for 24.
    pub rows: u16,
    /// The shared secret, where the client supplies one.
    pub auth_token: Option<String>,
}

/// The ghost shape of an [`InitMessage`].
pub struct InitMessageV {
    pub columns: u16,
    pub rows: u16,
    pub auth_token: Option<Seq<char>>,
}

impl View for InitMessage {
    type V = InitMessageV;

    open spec fn view(&self) -> InitMessageV {
        InitMessageV {
            columns: self.columns,
            rows: self.rows,
            auth_token: self.auth_token.deep_view(),
        }
    }
}

/// A resize request: the new terminal dimensions.
#[derive(Debug, Clone, Copy, PartialEq, Eq, Structural)]
pub struct ResizeMessage {
    pub columns: u16,
    pub rows: u16,
}

/// A mouse press or release at a cell position.
#[derive(Debug, Clone, Copy, PartialEq, Eq, Structural)]
pub struct MouseClickMessage {
    pub x: u16,
    pub y: u16,
    /// 0 left, 1 middle, 2 right.
    pub button: u8,
    pub pressed: bool,
}

/// A mouse drag: the current position, the button held, and where it started.
#[derive(Debug, Clone, Copy, PartialEq, Eq, Structural)]
pub struct MouseDragMessage {
    pub x: u16,
    pub y: u16,
    /// 0 left, 1 middle, 2 right.
    pub button: u8,
    pub start_x: u16,
    pub start_y: u16,
}

/// The ghost shape of a parsed client command.
pub enum ClientMessageV {
    Input(Seq<u8>),
    Resize { cols: u16, rows: u16 },
    Pause,
    Resume,
    Init(InitMessageV),
    MouseClick(MouseClickMessage),
    MouseDrag(MouseDragMessage),
}

/// A command received from the peer.
#[derive(Debug)]
pub enum ClientMessage {
    /// Keystroke bytes for the terminal, written to the process verbatim.
    Input(Vec<u8>),
    Resize { cols: u16, rows: u16 },
    Pause,
    Resume,
    Init(InitMessage),
    MouseClick(MouseClickMessage),
    MouseDrag(MouseDragMessage),
}

impl View for ClientMessage {
    type V = ClientMessageV;

    open spec fn view(&self) -> ClientMessageV {
        match self {
            ClientMessage::Input(data) => ClientMessageV::Input(data@),
            ClientMessage::Resize { cols, rows } => ClientMessageV::Resize {
                cols: *cols,
                rows: *rows,
            },
            ClientMessage::Pause => ClientMessageV::Pause,
            ClientMessage::Resume => ClientMessageV::Resume,
            ClientMessage::Init(m) => ClientMessageV::Init(m@),
            ClientMessage::MouseClick(m) => ClientMessageV::MouseClick(*m),
            ClientMessage::MouseDrag(m) => ClientMessageV::MouseDrag(*m),
        }
    }
}

/// The member name `columns`, as bytes.
pub open spec fn key_columns() -> Seq<u8> {
    seq![0x63u8, 0x6fu8, 0x6cu8, 0x75u8, 0x6du8, 0x6eu8, 0x73u8]
}

/// The member name `rows`, as bytes.
pub open spec fn key_rows() -> Seq<u8> {
    seq![0x72u8, 0x6fu8, 0x77u8, 0x73u8]
}

/// The member name `AuthToken`, as bytes.
pub open spec fn key_auth_token() -> Seq<u8> {
    seq![0x41u8, 0x75u8, 0x74u8, 0x68u8, 0x54u8, 0x6fu8, 0x6bu8, 0x65u8, 0x6eu8]
}

/// The member name `x`, as bytes.
pub open spec fn key_x() -> Seq<u8> {
    seq![0x78u8]
}

/// The member name `y`, as bytes.
pub open spec fn key_y() -> Seq<u8> {
    seq![0x79u8]
}

/// The member name `button`, as bytes.
pub open spec fn key_button() -> Seq<u8> {
    seq![0x62u8, 0x75u8, 0x74u8, 0x74u8, 0x6fu8, 0x6eu8]
}

/// The member name `pressed`, as bytes.
pub open spec fn key_pressed() -> Seq<u8> {
    seq![0x70u8, 0x72u8, 0x65u8, 0x73u8, 0x73u8, 0x65u8, 0x64u8]
}

/// The member name `start_x`, as bytes.
pub open spec fn key_start_x() -> Seq<u8> {
    seq![0x73u8, 0x74u8, 0x61u8, 0x72u8, 0x74u8, 0x5fu8, 0x78u8]
}

/// The member name `start_y`, as bytes.
pub open spec fn key_start_y() -> Seq<u8> {
    seq![0x73u8, 0x74u8, 0x61u8, 0x72u8, 0x74u8, 0x5fu8, 0x79u8]
}

fn key_columns_vec() -> (r: Vec<u8>)
    ensures
        r@ == key_columns(),
{
    let r = vec![0x63u8, 0x6fu8, 0x6cu8, 0x75u8, 0x6du8, 0x6eu8, 0x73u8];
    assert(r@ =~= key_columns());
    r
}

fn key_rows_vec() -> (r: Vec<u8>)
    ensures
        r@ == key_rows(),
{
    let r = vec![0x72u8, 0x6fu8, 0x77u8, 0x73u8];
    assert(r@ =~= key_rows());
    r
}

fn key_auth_token_vec() -> (r: Vec<u8>)
    ensures
        r@ == key_auth_token(),
{
    let r = vec![0x41u8, 0x75u8, 0x74u8, 0x68u8, 0x54u8, 0x6fu8, 0x6bu8, 0x65u8, 0x6eu8];
    assert(r@ =~= key_auth_token());
    r
}

fn key_x_vec() -> (r: Vec<u8>)
    ensures
        r@ == key_x(),
{
    let r = vec![0x78u8];
    assert(r@ =~= key_x());
    r
}

fn key_y_vec() -> (r: Vec<u8>)
    ensures
        r@ == key_y(),
{
    let r = vec![0x79u8];
    assert(r@ =~= key_y());
    r
}

fn key_button_vec() -> (r: Vec<u8>)
    ensures
        r@ == key_button(),
{
    let r = vec![0x62u8, 0x75u8, 0x74u8, 0x74u8, 0x6fu8, 0x6eu8];
    assert(r@ =~= key_button());
    r
}

fn key_pressed_vec() -> (r: Vec<u8>)
    ensures
        r@ == key_pressed(),
{
    let r = vec![0x70u8, 0x72u8, 0x65u8, 0x73u8, 0x73u8, 0x65u8, 0x64u8];
    assert(r@ =~= key_pressed());
    r
}

fn key_start_x_vec() -> (r: Vec<u8>)
    ensures
        r@ == key_start_x(),
{
    let r = vec![0x73u8, 0x74u8, 0x61u8, 0x72u8, 0x74u8, 0x5fu8, 0x78u8];
    assert(r@ =~= key_start_x());
    r
}

fn key_start_y_vec() -> (r: Vec<u8>)
    ensures
        r@ == key_start_y(),
{
    let r = vec![0x73u8, 0x74u8, 0x61u8, 0x72u8, 0x74u8, 0x5fu8, 0x79u8];
    assert(r@ =~= key_start_y());
    r
}

/// Whether two byte strings hold the same bytes.
fn bytes_eq(a: &[u8], b: &[u8]) -> (r: bool)
    ensures
        r == (a@ == b@),
{
    if a.len() != b.len() {
        return false;
    }
    let mut i: usize = 0;
    while i < a.len()
        invariant
            i <= a@.len(),
            a@.len() == b@.len(),
            forall|k: int| 0 <= k < i ==> a@[k] == b@[k],
        decreases a@.len() - i,
    {
        if a[i] != b[i] {
            return false;
        }
        i = i + 1;
    }
    proof {
        assert(a@ =~= b@);
    }
    true
}

/// Whether the string `t` holds exactly the byte string `pat`.
fn str_bytes_eq(t: &str, pat: &Vec<u8>) -> (r: bool)
    ensures
        r == (encode_utf8(t@) == pat@),
{
    bytes_eq(t.as_bytes(), pat.as_slice())
}

// In the four member walks below, `i` stands at a member key (whitespace
// already skipped) and a successful result carries the fields collected so
// far plus the position just past the object's closing brace. A known key
// given twice is refused, as serde refuses a duplicate field; an unknown key
// may hold any JSON value, which is skipped.
/// Walk the members of a `Resize` payload object.
pub open spec fn spec_resize_members(
    s: Seq<u8>,
    i: int,
    cols: Option<u16>,
    rows: Option<u16>,
) -> Option<(u16, u16, int)>
    decreases s.len() - i,
{
    match spec_parse_string(s, i) {
        None => None,
        Some((k, j)) => {
            proof {
                lemma_parse_string_bounds(s, i);
            }
            let j1 = spec_skip_ws(s, j);
            proof {
                lemma_skip_ws_bounds(s, j);
            }
            if j1 < s.len() && s[j1] == 0x3a {
                let j2 = spec_skip_ws(s, j1 + 1);
                proof {
                    lemma_skip_ws_bounds(s, j1 + 1);
                }
                if k == key_columns() {
                    if cols is Some {
                        None
                    } else {
                        match spec_parse_u16(s, j2) {
                            None => None,
                            Some((v, j3)) => {
                                proof {
                                    lemma_parse_u16_bounds(s, j2);
                                }
                                spec_resize_tail(s, j3, Some(v), rows)
                            },
                        }
                    }
                } else if k == key_rows() {
                    if rows is Some {
                        None
                    } else {
                        match spec_parse_u16(s, j2) {
                            None => None,
                            Some((v, j3)) => {
                                proof {
                                    lemma_parse_u16_bounds(s, j2);
                                }
                                spec_resize_tail(s, j3, cols, Some(v))
                            },
                        }
                    }
                } else {
                    match spec_skip_value(s, j2) {
                        None => None,
                        Some(j3) => if j3 <= j2 || j3 > s.len() {
                            None
                        } else {
                            spec_resize_tail(s, j3, cols, rows)
                        },
                    }
                }
            } else {
                None
            }
        },
    }
}

/// After one member of a `Resize` payload: a comma continues the walk, a
/// closing brace finishes it, and finishing demands both fields.
pub open spec fn spec_resize_tail(
    s: Seq<u8>,
    i: int,
    cols: Option<u16>,
    rows: Option<u16>,
) -> Option<(u16, u16, int)>
    decreases s.len() - i,
{
    if !(0 <= i <= s.len()) {
        None
    } else {
        let j4 = spec_skip_ws(s, i);
        proof {
            lemma_skip_ws_bounds(s, i);
        }
        if j4 < s.len() && s[j4] == 0x2c {
            let j5 = spec_skip_ws(s, j4 + 1);
            proof {
                lemma_skip_ws_bounds(s, j4 + 1);
            }
            spec_resize_members(s, j5, cols, rows)
        } else if j4 < s.len() && s[j4] == 0x7d {
            match (cols, rows) {
                (Some(c), Some(r)) => Some((c, r, j4 + 1)),
                _ => None,
            }
        } else {
            None
        }
    }
}

/// The `Resize` payload starting at `start`: one JSON object with `columns`
/// and `rows`, and nothing but whitespace after it.
pub open spec fn spec_parse_resize_payload(s: Seq<u8>, start: int) -> Option<(u16, u16)> {
    let i = spec_skip_ws(s, start);
    if i < s.len() && s[i] == 0x7b {
        let j = spec_skip_ws(s, i + 1);
        if j < s.len() && s[j] == 0x7d {
            None
        } else {
            match spec_resize_members(s, j, None, None) {
                None => None,
                Some((c, r, end)) => if spec_skip_ws(s, end) == s.len() {
                    Some((c, r))
                } else {
                    None
                },
            }
        }
    } else {
        None
    }
}

/// Walk the members of a `Resize` payload object.
fn resize_members(s: &[u8], i: usize, cols: Option<u16>, rows: Option<u16>) -> (r: Option<
    (u16, u16, usize),
>)
    requires
        i <= s@.len(),
    ensures
        r is None ==> spec_resize_members(s@, i as int, cols, rows) is None,
        r matches Some((c, rw, j)) ==> spec_resize_members(s@, i as int, cols, rows) == Some(
            (c, rw, j as int),
        ) && i < j <= s@.len(),
    decreases s@.len() - i,
{
    let (key, j) = match json::parse_string_at(s, i) {
        None => {
            return None;
        },
        Some(p) => p,
    };
    let j1 = json::skip_ws(s, j);
    if !(j1 < s.len() && s[j1] == 0x3a) {
        return None;
    }
    let j2 = json::skip_ws(s, j1 + 1);
    let ncols: Option<u16>;
    let nrows: Option<u16>;
    let j3: usize;
    if str_bytes_eq(key.as_str(), &key_columns_vec()) {
        if cols.is_some() {
            return None;
        }
        match json::parse_u16_at(s, j2) {
            None => {
                return None;
            },
            Some((v, p)) => {
                ncols = Some(v);
                nrows = rows;
                j3 = p;
            },
        }
    } else if str_bytes_eq(key.as_str(), &key_rows_vec()) {
        if rows.is_some() {
            return None;
        }
        match json::parse_u16_at(s, j2) {
            None => {
                return None;
            },
            Some((v, p)) => {
                ncols = cols;
                nrows = Some(v);
                j3 = p;
            },
        }
    } else {
        match json::skip_value_at(s, j2) {
            None => {
                return None;
            },
            Some(p) => {
                ncols = cols;
                nrows = rows;
                j3 = p;
            },
        }
    }
    let j4 = json::skip_ws(s, j3);
    if j4 < s.len() && s[j4] == 0x2c {
        let j5 = json::skip_ws(s, j4 + 1);
        resize_members(s, j5, ncols, nrows)
    } else if j4 < s.len() && s[j4] == 0x7d {
        match (ncols, nrows) {
            (Some(c), Some(r)) => Some((c, r, j4 + 1)),
            _ => None,
        }
    } else {
        None
    }
}

/// Read the `Resize` payload starting at `start`.
pub fn parse_resize_payload(s: &[u8], start: usize) -> (r: Option<(u16, u16)>)
    requires
        start <= s@.len(),
    ensures
        r == spec_parse_resize_payload(s@, start as int),
{
    let i = json::skip_ws(s, start);
    if !(i < s.len() && s[i] == 0x7b) {
        return None;
    }
    let j = json::skip_ws(s, i + 1);
    if j < s.len() && s[j] == 0x7d {
        return None;
    }
    match resize_members(s, j, None, None) {
        None => None,
        Some((c, r, end)) => {
            if json::skip_ws(s, end) == s.len() {
                Some((c, r))
            } else {
                None
            }
        },
    }
}

/// The ghost shape of a message sent by the server.
pub enum ServerMessageV {
    Output(Seq<u8>),
    SetWindowTitle(Seq<char>),
    SetPreferences(Seq<char>),
}

/// A message sent by the server to the peer.
#[derive(Debug)]
pub enum ServerMessage {
    Output(Vec<u8>),
    SetWindowTitle(String),
    SetPreferences(String),
}

impl View for ServerMessage {
    type V = ServerMessageV;

    open spec fn view(&self) -> ServerMessageV {
        match self {
            ServerMessage::Output(data) => ServerMessageV::Output(data@),
            ServerMessage::SetWindowTitle(title) => ServerMessageV::SetWindowTitle(title@),
            ServerMessage::SetPreferences(prefs) => ServerMessageV::SetPreferences(prefs@),
        }
    }
}

/// The frame a server message is sent as: its one-byte tag, then the payload
/// bytes, with text carried as UTF-8. There is no length prefix; the
/// transport's own message boundary frames it.
pub open spec fn spec_server_frame(m: ServerMessageV) -> Seq<u8> {
    match m {
        ServerMessageV::Output(data) => seq![OUTPUT] + data,
        ServerMessageV::SetWindowTitle(title) => seq![SET_WINDOW_TITLE] + encode_utf8(title),
        ServerMessageV::SetPreferences(prefs) => seq![SET_PREFERENCES] + encode_utf8(prefs),
    }
}

impl ServerMessage {
    /// Serialize the message as one frame.
    pub fn to_bytes(&self) -> (r: Vec<u8>)
        ensures
            r@ == spec_server_frame(self@),
    {
        match self {
            ServerMessage::Output(data) => {
                let mut msg: Vec<u8> = vec![OUTPUT];
                msg.extend_from_slice(data.as_slice());
                assert(msg@ =~= spec_server_frame(self@));
                msg
            },
            ServerMessage::SetWindowTitle(title) => {
                let mut msg: Vec<u8> = vec![SET_WINDOW_TITLE];
                msg.extend_from_slice(title.as_str().as_bytes());
                assert(msg@ =~= spec_server_frame(self@));
                msg
            },
            ServerMessage::SetPreferences(prefs) => {
                let mut msg: Vec<u8> = vec![SET_PREFERENCES];
                msg.extend_from_slice(prefs.as_str().as_bytes());
                assert(msg@ =~= spec_server_frame(self@));
                msg
            },
        }
    }
}


/// Walk the members of a `MouseClick` payload object.
pub open spec fn spec_click_members(
    s: Seq<u8>,
    i: int,
    x: Option<u16>,
    y: Option<u16>,
    button: Option<u8>,
    pressed: Option<bool>,
) -> Option<(MouseClickMessage, int)>
    decreases s.len() - i,
{
    match spec_parse_string(s, i) {
        None => None,
        Some((k, j)) => {
            proof {
                lemma_parse_string_bounds(s, i);
            }
            let j1 = spec_skip_ws(s, j);
            proof {
                lemma_skip_ws_bounds(s, j);
            }
            if j1 < s.len() && s[j1] == 0x3a {
                let j2 = spec_skip_ws(s, j1 + 1);
                proof {
                    lemma_skip_ws_bounds(s, j1 + 1);
                }
                if k == key_x() {
                    if x is Some {
                        None
                    } else {
                        match spec_parse_u16(s, j2) {
                            None => None,
                            Some((v, j3)) => {
                                proof {
                                    lemma_parse_u16_bounds(s, j2);
                                }
                                spec_click_tail(s, j3, Some(v), y, button, pressed)
                            },
                        }
                    }
                } else if k == key_y() {
                    if y is Some {
                        None
                    } else {
                        match spec_parse_u16(s, j2) {
                            None => None,
                            Some((v, j3)) => {
                                proof {
                                    lemma_parse_u16_bounds(s, j2);
                                }
                                spec_click_tail(s, j3, x, Some(v), button, pressed)
                            },
                        }
                    }
                } else if k == key_button() {
                    if button is Some {
                        None
                    } else {
                        match spec_parse_u8(s, j2) {
                            None => None,
                            Some((v, j3)) => {
                                proof {
                                    lemma_parse_u8_bounds(s, j2);
                                }
                                spec_click_tail(s, j3, x, y, Some(v), pressed)
                            },
                        }
                    }
                } else if k == key_pressed() {
                    if pressed is Some {
                        None
                    } else {
                        match spec_parse_bool(s, j2) {
                            None => None,
                            Some((v, j3)) => spec_click_tail(s, j3, x, y, button, Some(v)),
                        }
                    }
                } else {
                    match spec_skip_value(s, j2) {
                        None => None,
                        Some(j3) => if j3 <= j2 || j3 > s.len() {
                            None
                        } else {
                            spec_click_tail(s, j3, x, y, button, pressed)
                        },
                    }
                }
            } else {
                None
            }
        },
    }
}

/// After one member of a `MouseClick` payload; finishing demands all four
/// fields.
pub open spec fn spec_click_tail(
    s: Seq<u8>,
    i: int,
    x: Option<u16>,
    y: Option<u16>,
    button: Option<u8>,
    pressed: Option<bool>,
) -> Option<(MouseClickMessage, int)>
    decreases s.len() - i,
{
    if !(0 <= i <= s.len()) {
        None
    } else {
        let j4 = spec_skip_ws(s, i);
        proof {
            lemma_skip_ws_bounds(s, i);
        }
        if j4 < s.len() && s[j4] == 0x2c {
            let j5 = spec_skip_ws(s, j4 + 1);
            proof {
                lemma_skip_ws_bounds(s, j4 + 1);
            }
            spec_click_members(s, j5, x, y, button, pressed)
        } else if j4 < s.len() && s[j4] == 0x7d {
            match (x, y, button, pressed) {
                (Some(xv), Some(yv), Some(bv), Some(pv)) => Some(
                    (MouseClickMessage { x: xv, y: yv, button: bv, pressed: pv }, j4 + 1),
                ),
                _ => None,
            }
        } else {
            None
        }
    }
}

/// The `MouseClick` payload starting at `start`.
pub open spec fn spec_parse_click_payload(s: Seq<u8>, start: int) -> Option<MouseClickMessage> {
    let i = spec_skip_ws(s, start);
    if i < s.len() && s[i] == 0x7b {
        let j = spec_skip_ws(s, i + 1);
        if j < s.len() && s[j] == 0x7d {
            None
        } else {
            match spec_click_members(s, j, None, None, None, None) {
                None => None,
                Some((m, end)) => if spec_skip_ws(s, end) == s.len() {
                    Some(m)
                } else {
                    None
                },
            }
        }
    } else {
        None
    }
}

/// Walk the members of a `MouseClick` payload object.
fn click_members(
    s: &[u8],
    i: usize,
    x: Option<u16>,
    y: Option<u16>,
    button: Option<u8>,
    pressed: Option<bool>,
) -> (r: Option<(MouseClickMessage, usize)>)
    requires
        i <= s@.len(),
    ensures
        r is None ==> spec_click_members(s@, i as int, x, y, button, pressed) is None,
        r matches Some((m, j)) ==> spec_click_members(s@, i as int, x, y, button, pressed)
            == Some((m, j as int)) && i < j <= s@.len(),
    decreases s@.len() - i,
{
    let (key, j) = match json::parse_string_at(s, i) {
        None => {
            return None;
        },
        Some(p) => p,
    };
    let j1 = json::skip_ws(s, j);
    if !(j1 < s.len() && s[j1] == 0x3a) {
        return None;
    }
    let j2 = json::skip_ws(s, j1 + 1);
    let nx: Option<u16>;
    let ny: Option<u16>;
    let nbutton: Option<u8>;
    let npressed: Option<bool>;
    let j3: usize;
    if str_bytes_eq(key.as_str(), &key_x_vec()) {
        if x.is_some() {
            return None;
        }
        match json::parse_u16_at(s, j2) {
            None => {
                return None;
            },
            Some((v, p)) => {
                nx = Some(v);
                ny = y;
                nbutton = button;
                npressed = pressed;
                j3 = p;
            },
        }
    } else if str_bytes_eq(key.as_str(), &key_y_vec()) {
        if y.is_some() {
            return None;
        }
        match json::parse_u16_at(s, j2) {
            None => {
                return None;
            },
            Some((v, p)) => {
                nx = x;
                ny = Some(v);
                nbutton = button;
                npressed = pressed;
                j3 = p;
            },
        }
    } else if str_bytes_eq(key.as_str(), &key_button_vec()) {
        if button.is_some() {
            return None;
        }
        match json::parse_u8_at(s, j2) {
            None => {
                return None;
            },
            Some((v, p)) => {
                nx = x;
                ny = y;
                nbutton = Some(v);
                npressed = pressed;
                j3 = p;
            },
        }
    } else if str_bytes_eq(key.as_str(), &key_pressed_vec()) {
        if pressed.is_some() {
            return None;
        }
        match json::parse_bool_at(s, j2) {
            None => {
                return None;
            },
            Some((v, p)) => {
                nx = x;
                ny = y;
                nbutton = button;
                npressed = Some(v);
                j3 = p;
            },
        }
    } else {
        match json::skip_value_at(s, j2) {
            None => {
                return None;
            },
            Some(p) => {
                nx = x;
                ny = y;
                nbutton = button;
                npressed = pressed;
                j3 = p;
            },
        }
    }
    let j4 = json::skip_ws(s, j3);
    if j4 < s.len() && s[j4] == 0x2c {
        let j5 = json::skip_ws(s, j4 + 1);
        click_members(s, j5, nx, ny, nbutton, npressed)
    } else if j4 < s.len() && s[j4] == 0x7d {
        match (nx, ny, nbutton, npressed) {
            (Some(xv), Some(yv), Some(bv), Some(pv)) => Some(
                (MouseClickMessage { x: xv, y: yv, button: bv, pressed: pv }, j4 + 1),
            ),
            _ => None,
        }
    } else {
        None
    }
}

/// Read the `MouseClick` payload starting at `start`.
pub fn parse_click_payload(s: &[u8], start: usize) -> (r: Option<MouseClickMessage>)
    requires
        start <= s@.len(),
    ensures
        r == spec_parse_click_payload(s@, start as int),
{
    let i = json::skip_ws(s, start);
    if !(i < s.len() && s[i] == 0x7b) {
        return None;
    }
    let j = json::skip_ws(s, i + 1);
    if j < s.len() && s[j] == 0x7d {
        return None;
    }
    match click_members(s, j, None, None, None, None) {
        None => None,
        Some((m, end)) => {
            if json::skip_ws(s, end) == s.len() {
                Some(m)
            } else {
                None
            }
        },
    }
}

/// Walk the members of a `MouseDrag` payload object.
pub open spec fn spec_drag_members(
    s: Seq<u8>,
    i: int,
    x: Option<u16>,
    y: Option<u16>,
    button: Option<u8>,
    start_x: Option<u16>,
    start_y: Option<u16>,
) -> Option<(MouseDragMessage, int)>
    decreases s.len() - i,
{
    match spec_parse_string(s, i) {
        None => None,
        Some((k, j)) => {
            proof {
                lemma_parse_string_bounds(s, i);
            }
            let j1 = spec_skip_ws(s, j);
            proof {
                lemma_skip_ws_bounds(s, j);
            }
            if j1 < s.len() && s[j1] == 0x3a {
                let j2 = spec_skip_ws(s, j1 + 1);
                proof {
                    lemma_skip_ws_bounds(s, j1 + 1);
                }
                if k == key_x() {
                    if x is Some {
                        None
                    } else {
                        match spec_parse_u16(s, j2) {
                            None => None,
                            Some((v, j3)) => {
                                proof {
                                    lemma_parse_u16_bounds(s, j2);
                                }
                                spec_drag_tail(s, j3, Some(v), y, button, start_x, start_y)
                            },
                        }
                    }
                } else if k == key_y() {
                    if y is Some {
                        None
                    } else {
                        match spec_parse_u16(s, j2) {
                            None => None,
                            Some((v, j3)) => {
                                proof {
                                    lemma_parse_u16_bounds(s, j2);
                                }
                                spec_drag_tail(s, j3, x, Some(v), button, start_x, start_y)
                            },
                        }
                    }
                } else if k == key_button() {
                    if button is Some {
                        None
                    } else {
                        match spec_parse_u8(s, j2) {
                            None => None,
                            Some((v, j3)) => {
                                proof {
                                    lemma_parse_u8_bounds(s, j2);
                                }
                                spec_drag_tail(s, j3, x, y, Some(v), start_x, start_y)
                            },
                        }
                    }
                } else if k == key_start_x() {
                    if start_x is Some {
                        None
                    } else {
                        match spec_parse_u16(s, j2) {
                            None => None,
                            Some((v, j3)) => {
                                proof {
                                    lemma_parse_u16_bounds(s, j2);
                                }
                                spec_drag_tail(s, j3, x, y, button, Some(v), start_y)
                            },
                        }
                    }
                } else if k == key_start_y() {
                    if start_y is Some {
                        None
                    } else {
                        match spec_parse_u16(s, j2) {
                            None => None,
                            Some((v, j3)) => {
                                proof {
                                    lemma_parse_u16_bounds(s, j2);
                                }
                                spec_drag_tail(s, j3, x, y, button, start_x, Some(v))
                            },
                        }
                    }
                } else {
                    match spec_skip_value(s, j2) {
                        None => None,
                        Some(j3) => if j3 <= j2 || j3 > s.len() {
                            None
                        } else {
                            spec_drag_tail(s, j3, x, y, button, start_x, start_y)
                        },
                    }
                }
            } else {
                None
            }
        },
    }
}

/// After one member of a `MouseDrag` payload; finishing demands all five
/// fields.
pub open spec fn spec_drag_tail(
    s: Seq<u8>,
    i: int,
    x: Option<u16>,
    y: Option<u16>,
    button: Option<u8>,
    start_x: Option<u16>,
    start_y: Option<u16>,
) -> Option<(MouseDragMessage, int)>
    decreases s.len() - i,
{
    if !(0 <= i <= s.len()) {
        None
    } else {
        let j4 = spec_skip_ws(s, i);
        proof {
            lemma_skip_ws_bounds(s, i);
        }
        if j4 < s.len() && s[j4] == 0x2c {
            let j5 = spec_skip_ws(s, j4 + 1);
            proof {
                lemma_skip_ws_bounds(s, j4 + 1);
            }
            spec_drag_members(s, j5, x, y, button, start_x, start_y)
        } else if j4 < s.len() && s[j4] == 0x7d {
            match (x, y, button, start_x, start_y) {
                (Some(xv), Some(yv), Some(bv), Some(sxv), Some(syv)) => Some(
                    (
                        MouseDragMessage {
                            x: xv,
                            y: yv,
                            button: bv,
                            start_x: sxv,
                            start_y: syv,
                        },
                        j4 + 1,
                    ),
                ),
                _ => None,
            }
        } else {
            None
        }
    }
}

/// The `MouseDrag` payload starting at `start`.
pub open spec fn spec_parse_drag_payload(s: Seq<u8>, start: int) -> Option<MouseDragMessage> {
    let i = spec_skip_ws(s, start);
    if i < s.len() && s[i] == 0x7b {
        let j = spec_skip_ws(s, i + 1);
        if j < s.len() && s[j] == 0x7d {
            None
        } else {
            match spec_drag_members(s, j, None, None, None, None, None) {
                None => None,
                Some((m, end)) => if spec_skip_ws(s, end) == s.len() {
                    Some(m)
                } else {
                    None
                },
            }
        }
    } else {
        None
    }
}

/// Walk the members of a `MouseDrag` payload object.
fn drag_members(
    s: &[u8],
    i: usize,
    x: Option<u16>,
    y: Option<u16>,
    button: Option<u8>,
    start_x: Option<u16>,
    start_y: Option<u16>,
) -> (r: Option<(MouseDragMessage, usize)>)
    requires
        i <= s@.len(),
    ensures
        r is None ==> spec_drag_members(s@, i as int, x, y, button, start_x, start_y) is None,
        r matches Some((m, j)) ==> spec_drag_members(s@, i as int, x, y, button, start_x, start_y)
            == Some((m, j as int)) && i < j <= s@.len(),
    decreases s@.len() - i,
{
    let (key, j) = match json::parse_string_at(s, i) {
        None => {
            return None;
        },
        Some(p) => p,
    };
    let j1 = json::skip_ws(s, j);
    if !(j1 < s.len() && s[j1] == 0x3a) {
        return None;
    }
    let j2 = json::skip_ws(s, j1 + 1);
    let nx: Option<u16>;
    let ny: Option<u16>;
    let nbutton: Option<u8>;
    let nstart_x: Option<u16>;
    let nstart_y: Option<u16>;
    let j3: usize;
    if str_bytes_eq(key.as_str(), &key_x_vec()) {
        if x.is_some() {
            return None;
        }
        match json::parse_u16_at(s, j2) {
            None => {
                return None;
            },
            Some((v, p)) => {
                nx = Some(v);
                ny = y;
                nbutton = button;
                nstart_x = start_x;
                nstart_y = start_y;
                j3 = p;
            },
        }
    } else if str_bytes_eq(key.as_str(), &key_y_vec()) {
        if y.is_some() {
            return None;
        }
        match json::parse_u16_at(s, j2) {
            None => {
                return None;
            },
            Some((v, p)) => {
                nx = x;
                ny = Some(v);
                nbutton = button;
                nstart_x = start_x;
                nstart_y = start_y;
                j3 = p;
            },
        }
    } else if str_bytes_eq(key.as_str(), &key_button_vec()) {
        if button.is_some() {
            return None;
        }
        match json::parse_u8_at(s, j2) {
            None => {
                return None;
            },
            Some((v, p)) => {
                nx = x;
                ny = y;
                nbutton = Some(v);
                nstart_x = start_x;
                nstart_y = start_y;
                j3 = p;
            },
        }
    } else if str_bytes_eq(key.as_str(), &key_start_x_vec()) {
        if start_x.is_some() {
            return None;
        }
        match json::parse_u16_at(s, j2) {
            None => {
                return None;
            },
            Some((v, p)) => {
                nx = x;
                ny = y;
                nbutton = button;
                nstart_x = Some(v);
                nstart_y = start_y;
                j3 = p;
            },
        }
    } else if str_bytes_eq(key.as_str(), &key_start_y_vec()) {
        if start_y.is_some() {
            return None;
        }
        match json::parse_u16_at(s, j2) {
            None => {
                return None;
            },
            Some((v, p)) => {
                nx = x;
                ny = y;
                nbutton = button;
                nstart_x = start_x;
                nstart_y = Some(v);
                j3 = p;
            },
        }
    } else {
        match json::skip_value_at(s, j2) {
            None => {
                return None;
            },
            Some(p) => {
                nx = x;
                ny = y;
                nbutton = button;
                nstart_x = start_x;
                nstart_y = start_y;
                j3 = p;
            },
        }
    }
    let j4 = json::skip_ws(s, j3);
    if j4 < s.len() && s[j4] == 0x2c {
        let j5 = json::skip_ws(s, j4 + 1);
        drag_members(s, j5, nx, ny, nbutton, nstart_x, nstart_y)
    } else if j4 < s.len() && s[j4] == 0x7d {
        match (nx, ny, nbutton, nstart_x, nstart_y) {
            (Some(xv), Some(yv), Some(bv), Some(sxv), Some(syv)) => Some(
                (
                    MouseDragMessage { x: xv, y: yv, button: bv, start_x: sxv, start_y: syv },
                    j4 + 1,
                ),
            ),
            _ => None,
        }
    } else {
        None
    }
}

/// Read the `MouseDrag` payload starting at `start`.
pub fn parse_drag_payload(s: &[u8], start: usize) -> (r: Option<MouseDragMessage>)
    requires
        start <= s@.len(),
    ensures
        r == spec_parse_drag_payload(s@, start as int),
{
    let i = json::skip_ws(s, start);
    if !(i < s.len() && s[i] == 0x7b) {
        return None;
    }
    let j = json::skip_ws(s, i + 1);
    if j < s.len() && s[j] == 0x7d {
        return None;
    }
    match drag_members(s, j, None, None, None, None, None) {
        None => None,
        Some((m, end)) => {
            if json::skip_ws(s, end) == s.len() {
                Some(m)
            } else {
                None
            }
        },
    }
}


/// Walk the members of an `Init` object. All members are optional:
/// `columns` and `rows` default to zero, `AuthToken` may be a string, `null`
/// or absent. The `token` accumulator distinguishes an absent member from an
/// explicit `null`, so a duplicate is still refused.
pub open spec fn spec_init_members(
    s: Seq<u8>,
    i: int,
    cols: Option<u16>,
    rows: Option<u16>,
    token: Option<Option<Seq<char>>>,
) -> Option<(u16, u16, Option<Seq<char>>, int)>
    decreases s.len() - i,
{
    match spec_parse_string(s, i) {
        None => None,
        Some((k, j)) => {
            proof {
                lemma_parse_string_bounds(s, i);
            }
            let j1 = spec_skip_ws(s, j);
            proof {
                lemma_skip_ws_bounds(s, j);
            }
            if j1 < s.len() && s[j1] == 0x3a {
                let j2 = spec_skip_ws(s, j1 + 1);
                proof {
                    lemma_skip_ws_bounds(s, j1 + 1);
                }
                if k == key_columns() {
                    if cols is Some {
                        None
                    } else {
                        match spec_parse_u16(s, j2) {
                            None => None,
                            Some((v, j3)) => {
                                proof {
                                    lemma_parse_u16_bounds(s, j2);
                                }
                                spec_init_tail(s, j3, Some(v), rows, token)
                            },
                        }
                    }
                } else if k == key_rows() {
                    if rows is Some {
                        None
                    } else {
                        match spec_parse_u16(s, j2) {
                            None => None,
                            Some((v, j3)) => {
                                proof {
                                    lemma_parse_u16_bounds(s, j2);
                                }
                                spec_init_tail(s, j3, cols, Some(v), token)
                            },
                        }
                    }
                } else if k == key_auth_token() {
                    if token is Some {
                        None
                    } else {
                        if j2 < s.len() && s[j2] == 0x22 {
                            match spec_parse_string(s, j2) {
                                None => None,
                                Some((b, j3)) => {
                                    proof {
                                        lemma_parse_string_bounds(s, j2);
                                    }
                                    spec_init_tail(s, j3, cols, rows, Some(Some(decode_utf8(b))))
                                },
                            }
                        } else {
                            match spec_parse_null(s, j2) {
                                None => None,
                                Some(j3) => spec_init_tail(s, j3, cols, rows, Some(None)),
                            }
                        }
                    }
                } else {
                    match spec_skip_value(s, j2) {
                        None => None,
                        Some(j3) => if j3 <= j2 || j3 > s.len() {
                            None
                        } else {
                            spec_init_tail(s, j3, cols, rows, token)
                        },
                    }
                }
            } else {
                None
            }
        },
    }
}

/// After one member of an `Init` object; finishing applies the defaults.
pub open spec fn spec_init_tail(
    s: Seq<u8>,
    i: int,
    cols: Option<u16>,
    rows: Option<u16>,
    token: Option<Option<Seq<char>>>,
) -> Option<(u16, u16, Option<Seq<char>>, int)>
    decreases s.len() - i,
{
    if !(0 <= i <= s.len()) {
        None
    } else {
        let j4 = spec_skip_ws(s, i);
        proof {
            lemma_skip_ws_bounds(s, i);
        }
        if j4 < s.len() && s[j4] == 0x2c {
            let j5 = spec_skip_ws(s, j4 + 1);
            proof {
                lemma_skip_ws_bounds(s, j4 + 1);
            }
            spec_init_members(s, j5, cols, rows, token)
        } else if j4 < s.len() && s[j4] == 0x7d {
            let c = match cols {
                Some(c) => c,
                None => 0u16,
            };
            let r = match rows {
                Some(r) => r,
                None => 0u16,
            };
            let tk = match token {
                Some(tk) => tk,
                None => None,
            };
            Some((c, r, tk, j4 + 1))
        } else {
            None
        }
    }
}

/// The whole `Init` frame: one JSON object whose opening brace is the frame's
/// first byte, with nothing but whitespace after it.
pub open spec fn spec_parse_init(s: Seq<u8>) -> Option<InitMessageV> {
    if 0 < s.len() && s[0] == 0x7b {
        let j = spec_skip_ws(s, 1);
        if j < s.len() && s[j] == 0x7d {
            if spec_skip_ws(s, j + 1) == s.len() {
                Some(InitMessageV { columns: 0, rows: 0, auth_token: None })
            } else {
                None
            }
        } else {
            match spec_init_members(s, j, None, None, None) {
                None => None,
                Some((c, r, tk, end)) => if spec_skip_ws(s, end) == s.len() {
                    Some(InitMessageV { columns: c, rows: r, auth_token: tk })
                } else {
                    None
                },
            }
        }
    } else {
        None
    }
}

/// Walk the members of an `Init` object.
fn init_members(
    s: &[u8],
    i: usize,
    cols: Option<u16>,
    rows: Option<u16>,
    token: Option<Option<String>>,
) -> (r: Option<(u16, u16, Option<String>, usize)>)
    requires
        i <= s@.len(),
    ensures
        r is None ==> spec_init_members(s@, i as int, cols, rows, token.deep_view()) is None,
        r matches Some((c, rw, tk, j)) ==> spec_init_members(
            s@,
            i as int,
            cols,
            rows,
            token.deep_view(),
        ) == Some((c, rw, tk.deep_view(), j as int)) && i < j <= s@.len(),
    decreases s@.len() - i,
{
    let (key, j) = match json::parse_string_at(s, i) {
        None => {
            return None;
        },
        Some(p) => p,
    };
    let j1 = json::skip_ws(s, j);
    if !(j1 < s.len() && s[j1] == 0x3a) {
        return None;
    }
    let j2 = json::skip_ws(s, j1 + 1);
    let ncols: Option<u16>;
    let nrows: Option<u16>;
    let ntoken: Option<Option<String>>;
    let j3: usize;
    if str_bytes_eq(key.as_str(), &key_columns_vec()) {
        if cols.is_some() {
            return None;
        }
        match json::parse_u16_at(s, j2) {
            None => {
                return None;
            },
            Some((v, p)) => {
                ncols = Some(v);
                nrows = rows;
                ntoken = token;
                j3 = p;
            },
        }
    } else if str_bytes_eq(key.as_str(), &key_rows_vec()) {
        if rows.is_some() {
            return None;
        }
        match json::parse_u16_at(s, j2) {
            None => {
                return None;
            },
            Some((v, p)) => {
                ncols = cols;
                nrows = Some(v);
                ntoken = token;
                j3 = p;
            },
        }
    } else if str_bytes_eq(key.as_str(), &key_auth_token_vec()) {
        if token.is_some() {
            return None;
        }
        if j2 < s.len() && s[j2] == 0x22 {
            match json::parse_string_at(s, j2) {
                None => {
                    return None;
                },
                Some((tv, p)) => {
                    proof {
                        vstd::utf8::encode_utf8_decode_utf8(tv@);
                    }
                    ncols = cols;
                    nrows = rows;
                    ntoken = Some(Some(tv));
                    j3 = p;
                },
            }
        } else {
            match json::parse_null_at(s, j2) {
                None => {
                    return None;
                },
                Some(p) => {
                    ncols = cols;
                    nrows = rows;
                    ntoken = Some(None);
                    j3 = p;
                },
            }
        }
    } else {
        match json::skip_value_at(s, j2) {
            None => {
                return None;
            },
            Some(p) => {
                ncols = cols;
                nrows = rows;
                ntoken = token;
                j3 = p;
            },
        }
    }
    let j4 = json::skip_ws(s, j3);
    if j4 < s.len() && s[j4] == 0x2c {
        let j5 = json::skip_ws(s, j4 + 1);
        init_members(s, j5, ncols, nrows, ntoken)
    } else if j4 < s.len() && s[j4] == 0x7d {
        let c = match ncols {
            Some(c) => c,
            None => 0u16,
        };
        let r = match nrows {
            Some(r) => r,
            None => 0u16,
        };
        let tk: Option<String> = match ntoken {
            Some(tk) => tk,
            None => None,
        };
        Some((c, r, tk, j4 + 1))
    } else {
        None
    }
}

/// Read a whole `Init` frame.
pub fn parse_init(s: &[u8]) -> (r: Option<InitMessage>)
    ensures
        r is None ==> spec_parse_init(s@) is None,
        r matches Some(m) ==> spec_parse_init(s@) == Some(m@),
{
    if !(0 < s.len() && s[0] == 0x7b) {
        return None;
    }
    let j = json::skip_ws(s, 1);
    if j < s.len() && s[j] == 0x7d {
        if json::skip_ws(s, j + 1) == s.len() {
            return Some(InitMessage { columns: 0, rows: 0, auth_token: None });
        } else {
            return None;
        }
    }
    match init_members(s, j, None, None, None) {
        None => None,
        Some((c, r, tk, end)) => {
            if json::skip_ws(s, end) == s.len() {
                Some(InitMessage { columns: c, rows: r, auth_token: tk })
            } else {
                None
            }
        },
    }
}

/// What a frame parses to: the command it carries, or why it is refused.
/// An empty frame and an unknown tag are errors; a `Pause` or `Resume`
/// frame's payload, if any, is ignored: the tag alone decides.
pub open spec fn spec_parse(data: Seq<u8>) -> Result<ClientMessageV, ProtocolError> {
    if data.len() == 0 {
        Err(ProtocolError::Empty)
    } else if data[0] == INPUT {
        Ok(ClientMessageV::Input(data.skip(1)))
    } else if data[0] == RESIZE_TERMINAL {
        match spec_parse_resize_payload(data, 1) {
            Some((c, r)) => Ok(ClientMessageV::Resize { cols: c, rows: r }),
            None => Err(ProtocolError::BadPayload),
        }
    } else if data[0] == PAUSE {
        Ok(ClientMessageV::Pause)
    } else if data[0] == RESUME {
        Ok(ClientMessageV::Resume)
    } else if data[0] == MOUSE_EVENT {
        match spec_parse_click_payload(data, 1) {
            Some(m) => Ok(ClientMessageV::MouseClick(m)),
            None => Err(ProtocolError::BadPayload),
        }
    } else if data[0] == MOUSE_DRAG_EVENT {
        match spec_parse_drag_payload(data, 1) {
            Some(m) => Ok(ClientMessageV::MouseDrag(m)),
            None => Err(ProtocolError::BadPayload),
        }
    } else if data[0] == JSON_DATA {
        match spec_parse_init(data) {
            Some(m) => Ok(ClientMessageV::Init(m)),
            None => Err(ProtocolError::BadPayload),
        }
    } else {
        Err(ProtocolError::UnknownTag(data[0]))
    }
}

impl ClientMessage {
    /// Parse one inbound frame into the command it carries.
    ///
    /// The result is exactly what [`spec_parse`] names for the frame's bytes:
    /// an error on an empty frame, on an unknown tag (carrying the offending
    /// byte) and on a payload that is no JSON object of the demanded shape.
    pub fn parse(data: &[u8]) -> (r: Result<ClientMessage, ProtocolError>)
        ensures
            r matches Ok(m) ==> spec_parse(data@) == Ok::<ClientMessageV, ProtocolError>(m@),
            r matches Err(e) ==> spec_parse(data@) == Err::<ClientMessageV, ProtocolError>(e),
    {
        if data.len() == 0 {
            return Err(ProtocolError::Empty);
        }
        let tag = data[0];
        if tag == INPUT {
            let mut payload: Vec<u8> = Vec::new();
            let mut i: usize = 1;
            while i < data.len()
                invariant
                    1 <= i <= data@.len(),
                    payload@ =~= data@.subrange(1, i as int),
                decreases data@.len() - i,
            {
                payload.push(data[i]);
                i = i + 1;
            }
            assert(payload@ =~= data@.skip(1));
            Ok(ClientMessage::Input(payload))
        } else if tag == RESIZE_TERMINAL {
            match parse_resize_payload(data, 1) {
                Some((c, r)) => Ok(ClientMessage::Resize { cols: c, rows: r }),
                None => Err(ProtocolError::BadPayload),
            }
        } else if tag == PAUSE {
            Ok(ClientMessage::Pause)
        } else if tag == RESUME {
            Ok(ClientMessage::Resume)
        } else if tag == MOUSE_EVENT {
            match parse_click_payload(data, 1) {
                Some(m) => Ok(ClientMessage::MouseClick(m)),
                None => Err(ProtocolError::BadPayload),
            }
        } else if tag == MOUSE_DRAG_EVENT {
            match parse_drag_payload(data, 1) {
                Some(m) => Ok(ClientMessage::MouseDrag(m)),
                None => Err(ProtocolError::BadPayload),
            }
        } else if tag == JSON_DATA {
            match parse_init(data) {
                Some(m) => Ok(ClientMessage::Init(m)),
                None => Err(ProtocolError::BadPayload),
            }
        } else {
            Err(ProtocolError::UnknownTag(tag))
        }
    }
}

/// The button-state byte of an X10 mouse report: left, middle and right
/// presses are 0x20, 0x21 and 0x22; any release, or an unknown button, is
/// 0x23.
pub open spec fn spec_mouse_button_state(button: u8, pressed: bool) -> u8 {
    if !pressed {
        0x23
    } else if button == 0 {
        0x20
    } else if button == 1 {
        0x21
    } else if button == 2 {
        0x22
    } else {
        0x23
    }
}

/// The button-state byte of a drag report: the press code with bit 0x40 set;
/// an unknown button counts as the left one.
pub open spec fn spec_mouse_drag_state(button: u8) -> u8 {
    if button == 1 {
        0x61
    } else if button == 2 {
        0x62
    } else {
        0x60
    }
}

/// A report coordinate: the cell number plus 32, kept to one byte. Positions
/// past 223 wrap, a known limit of the legacy encoding.
pub open spec fn spec_mouse_coord(v: u16) -> u8 {
    ((v + 32) % 256) as u8
}

/// The five report bytes for a click: escape, `M`, the button state, then
/// column and row.
pub open spec fn spec_mouse_click_sequence(x: u16, y: u16, button: u8, pressed: bool) -> Seq<
    u8,
> {
    seq![
        0x1bu8,
        0x4du8,
        spec_mouse_button_state(button, pressed),
        spec_mouse_coord(x),
        spec_mouse_coord(y),
    ]
}

/// The five report bytes for a drag: as a click, with the drag bit set.
pub open spec fn spec_mouse_drag_sequence(x: u16, y: u16, button: u8) -> Seq<u8> {
    seq![0x1bu8, 0x4du8, spec_mouse_drag_state(button), spec_mouse_coord(x), spec_mouse_coord(y)]
}

/// Translate a mouse click or release into the X10 report fed to the
/// terminal as if it were keyboard input.
pub fn generate_mouse_sequence(x: u16, y: u16, button: u8, pressed: bool) -> (r: Vec<u8>)
    ensures
        r@ == spec_mouse_click_sequence(x, y, button, pressed),
{
    let button_state: u8 = if !pressed {
        0x23
    } else if button == 0 {
        0x20
    } else if button == 1 {
        0x21
    } else if button == 2 {
        0x22
    } else {
        0x23
    };
    let x_coord = (((x as u32) + 32) % 256) as u8;
    let y_coord = (((y as u32) + 32) % 256) as u8;
    let r = vec![0x1bu8, 0x4du8, button_state, x_coord, y_coord];
    assert(r@ =~= spec_mouse_click_sequence(x, y, button, pressed));
    r
}

/// Translate a mouse drag into the X10 report fed to the terminal as if it
/// were keyboard input.
pub fn generate_mouse_drag_sequence(x: u16, y: u16, button: u8) -> (r: Vec<u8>)
    ensures
        r@ == spec_mouse_drag_sequence(x, y, button),
{
    let button_state: u8 = if button == 1 {
        0x61
    } else if button == 2 {
        0x62
    } else {
        0x60
    };
    let x_coord = (((x as u32) + 32) % 256) as u8;
    let y_coord = (((y as u32) + 32) % 256) as u8;
    let r = vec![0x1bu8, 0x4du8, button_state, x_coord, y_coord];
    assert(r@ =~= spec_mouse_drag_sequence(x, y, button));
    r
}


/// A member name in its canonical spelling: quoted, with its colon.
pub open spec fn spec_quoted_key(key: Seq<u8>) -> Seq<u8> {
    seq![0x22u8] + key + seq![0x22u8, 0x3au8]
}

/// The canonical spelling of a boolean.
pub open spec fn spec_bool_bytes(b: bool) -> Seq<u8> {
    if b {
        seq![0x74u8, 0x72u8, 0x75u8, 0x65u8]
    } else {
        seq![0x66u8, 0x61u8, 0x6cu8, 0x73u8, 0x65u8]
    }
}

/// Append a quoted member name and its colon.
fn push_quoted_key(out: &mut Vec<u8>, key: &Vec<u8>)
    ensures
        final(out)@ == old(out)@ + spec_quoted_key(key@),
{
    out.push(0x22);
    out.extend_from_slice(key.as_slice());
    out.push(0x22);
    out.push(0x3a);
    assert(out@ =~= old(out)@ + spec_quoted_key(key@));
}

/// Append the canonical spelling of a boolean.
fn push_bool(out: &mut Vec<u8>, b: bool)
    ensures
        final(out)@ == old(out)@ + spec_bool_bytes(b),
{
    if b {
        out.push(0x74);
        out.push(0x72);
        out.push(0x75);
        out.push(0x65);
    } else {
        out.push(0x66);
        out.push(0x61);
        out.push(0x6c);
        out.push(0x73);
        out.push(0x65);
    }
    assert(out@ =~= old(out)@ + spec_bool_bytes(b));
}

/// The canonical frame for a resize request: the tag, then a compact JSON
/// object naming `columns` and `rows`.
pub open spec fn spec_resize_frame(columns: u16, rows: u16) -> Seq<u8> {
    seq![RESIZE_TERMINAL, 0x7bu8] + spec_quoted_key(key_columns()) + spec_u16_dec(columns)
        + seq![0x2cu8] + spec_quoted_key(key_rows()) + spec_u16_dec(rows) + seq![0x7du8]
}

impl ResizeMessage {
    /// Serialize the request as its canonical frame.
    pub fn to_frame(&self) -> (r: Vec<u8>)
        ensures
            r@ == spec_resize_frame(self.columns, self.rows),
    {
        let mut r: Vec<u8> = vec![RESIZE_TERMINAL, 0x7bu8];
        push_quoted_key(&mut r, &key_columns_vec());
        json::push_u16_dec(&mut r, self.columns);
        r.push(0x2c);
        push_quoted_key(&mut r, &key_rows_vec());
        json::push_u16_dec(&mut r, self.rows);
        r.push(0x7d);
        assert(r@ =~= spec_resize_frame(self.columns, self.rows));
        r
    }
}

/// Law: a resize survives the codec round trip. The canonical frame for any
/// dimensions parses back to exactly the resize command naming them.
#[verifier::spinoff_prover]
#[verifier::rlimit(100)]
pub proof fn lemma_resize_round_trip(columns: u16, rows: u16)
    ensures
        spec_parse(spec_resize_frame(columns, rows)) == Ok::<ClientMessageV, ProtocolError>(
            ClientMessageV::Resize { cols: columns, rows: rows },
        ),
{
    let s = spec_resize_frame(columns, rows);
    let dc = spec_u16_dec(columns).len() as int;
    let dr = spec_u16_dec(rows).len() as int;
    lemma_u16_dec_shape(columns);
    lemma_u16_dec_shape(rows);
    assert(s.len() == 21 + dc + dr);
    assert(s[0] == RESIZE_TERMINAL);
    assert(s[1] == 0x7b);
    assert(s[2] == 0x22);
    assert(s.subrange(3, 10) =~= key_columns());
    assert(s[10] == 0x22);
    assert(s[11] == 0x3a);
    assert(s.subrange(12, 12 + dc) =~= spec_u16_dec(columns));
    assert(s[12 + dc] == 0x2c);
    assert(s[13 + dc] == 0x22);
    assert(s.subrange(14 + dc, 18 + dc) =~= key_rows());
    assert(s[18 + dc] == 0x22);
    assert(s[19 + dc] == 0x3a);
    assert(s.subrange(20 + dc, 20 + dc + dr) =~= spec_u16_dec(rows));
    assert(s[20 + dc + dr] == 0x7d);

    // the first member: "columns" and its number
    assert(forall|k: int| 0 <= k < 7 ==> 0x20 <= #[trigger] key_columns()[k] < 0x80
        && key_columns()[k] != 0x22 && key_columns()[k] != 0x5c);
    lemma_parse_string_of_plain_ascii(s, 2, key_columns());
    lemma_skip_ws_at_non_ws(s, 11);
    assert(spec_u16_dec(columns)[0] == s[12]);
    assert(is_digit_byte(s[12]) && !is_ws_byte(s[12]));
    lemma_skip_ws_at_non_ws(s, 12);
    lemma_parse_u16_of_dec(s, 12, columns);
    assert(spec_resize_members(s, 2, None, None) == spec_resize_tail(
        s,
        12 + dc,
        Some(columns),
        None,
    ));

    // between the members
    lemma_skip_ws_at_non_ws(s, 12 + dc);
    lemma_skip_ws_at_non_ws(s, 13 + dc);
    assert(spec_resize_tail(s, 12 + dc, Some(columns), None) == spec_resize_members(
        s,
        13 + dc,
        Some(columns),
        None,
    ));

    // the second member: "rows" and its number
    assert(forall|k: int| 0 <= k < 4 ==> 0x20 <= #[trigger] key_rows()[k] < 0x80 && key_rows()[k]
        != 0x22 && key_rows()[k] != 0x5c);
    lemma_parse_string_of_plain_ascii(s, 13 + dc, key_rows());
    lemma_skip_ws_at_non_ws(s, 19 + dc);
    assert(spec_u16_dec(rows)[0] == s[20 + dc]);
    assert(is_digit_byte(s[20 + dc]) && !is_ws_byte(s[20 + dc]));
    lemma_skip_ws_at_non_ws(s, 20 + dc);
    lemma_parse_u16_of_dec(s, 20 + dc, rows);
    assert(key_rows().len() != key_columns().len());
    assert(spec_resize_members(s, 13 + dc, Some(columns), None) == spec_resize_tail(
        s,
        20 + dc + dr,
        Some(columns),
        Some(rows),
    ));

    // the closing brace and the end of the frame
    lemma_skip_ws_at_non_ws(s, 20 + dc + dr);
    assert(spec_resize_tail(s, 20 + dc + dr, Some(columns), Some(rows)) == Some(
        (columns, rows, 21 + dc + dr),
    ));
    lemma_skip_ws_at_non_ws(s, 1);
    lemma_skip_ws_at_non_ws(s, 2);
    lemma_skip_ws_at_non_ws(s, s.len() as int);
    assert(spec_parse_resize_payload(s, 1) == Some((columns, rows)));
}


/// The canonical frame for a mouse click: the tag, then a compact JSON
/// object naming `x`, `y`, `button` and `pressed`.
pub open spec fn spec_click_frame(m: MouseClickMessage) -> Seq<u8> {
    seq![MOUSE_EVENT, 0x7bu8] + spec_quoted_key(key_x()) + spec_u16_dec(m.x) + seq![0x2cu8]
        + spec_quoted_key(key_y()) + spec_u16_dec(m.y) + seq![0x2cu8] + spec_quoted_key(
        key_button(),
    ) + spec_u16_dec(m.button as u16) + seq![0x2cu8] + spec_quoted_key(key_pressed())
        + spec_bool_bytes(m.pressed) + seq![0x7du8]
}

impl MouseClickMessage {
    /// Serialize the click as its canonical frame.
    pub fn to_frame(&self) -> (r: Vec<u8>)
        ensures
            r@ == spec_click_frame(*self),
    {
        let mut r: Vec<u8> = vec![MOUSE_EVENT, 0x7bu8];
        push_quoted_key(&mut r, &key_x_vec());
        json::push_u16_dec(&mut r, self.x);
        r.push(0x2c);
        push_quoted_key(&mut r, &key_y_vec());
        json::push_u16_dec(&mut r, self.y);
        r.push(0x2c);
        push_quoted_key(&mut r, &key_button_vec());
        json::push_u16_dec(&mut r, self.button as u16);
        r.push(0x2c);
        push_quoted_key(&mut r, &key_pressed_vec());
        push_bool(&mut r, self.pressed);
        r.push(0x7d);
        assert(r@ =~= spec_click_frame(*self));
        r
    }
}

/// The canonical frame for a mouse drag: the tag, then a compact JSON
/// object naming `x`, `y`, `button`, `start_x` and `start_y`.
pub open spec fn spec_drag_frame(m: MouseDragMessage) -> Seq<u8> {
    seq![MOUSE_DRAG_EVENT, 0x7bu8] + spec_quoted_key(key_x()) + spec_u16_dec(m.x) + seq![0x2cu8]
        + spec_quoted_key(key_y()) + spec_u16_dec(m.y) + seq![0x2cu8] + spec_quoted_key(
        key_button(),
    ) + spec_u16_dec(m.button as u16) + seq![0x2cu8] + spec_quoted_key(key_start_x())
        + spec_u16_dec(m.start_x) + seq![0x2cu8] + spec_quoted_key(key_start_y()) + spec_u16_dec(
        m.start_y,
    ) + seq![0x7du8]
}

impl MouseDragMessage {
    /// Serialize the drag as its canonical frame.
    pub fn to_frame(&self) -> (r: Vec<u8>)
        ensures
            r@ == spec_drag_frame(*self),
    {
        let mut r: Vec<u8> = vec![MOUSE_DRAG_EVENT, 0x7bu8];
        push_quoted_key(&mut r, &key_x_vec());
        json::push_u16_dec(&mut r, self.x);
        r.push(0x2c);
        push_quoted_key(&mut r, &key_y_vec());
        json::push_u16_dec(&mut r, self.y);
        r.push(0x2c);
        push_quoted_key(&mut r, &key_button_vec());
        json::push_u16_dec(&mut r, self.button as u16);
        r.push(0x2c);
        push_quoted_key(&mut r, &key_start_x_vec());
        json::push_u16_dec(&mut r, self.start_x);
        r.push(0x2c);
        push_quoted_key(&mut r, &key_start_y_vec());
        json::push_u16_dec(&mut r, self.start_y);
        r.push(0x7d);
        assert(r@ =~= spec_drag_frame(*self));
        r
    }
}

/// The byte layout of a canonical click frame.
#[verifier::spinoff_prover]
#[verifier::rlimit(100)]
proof fn lemma_click_frame_bytes(m: MouseClickMessage)
    ensures
        ({
            let s = spec_click_frame(m);
            let dx = spec_u16_dec(m.x).len() as int;
            let dy = spec_u16_dec(m.y).len() as int;
            let db = spec_u16_dec(m.button as u16).len() as int;
            let pb = spec_bool_bytes(m.pressed).len() as int;
            let o1 = dx;
            let o2 = dx + dy;
            let o3 = dx + dy + db;
            &&& s.len() == 33 + o3 + pb
            &&& s[0] == MOUSE_EVENT
            &&& s[1] == 0x7b
            &&& s[2] == 0x22
            &&& s.subrange(3, 4) == key_x()
            &&& s[4] == 0x22
            &&& s[5] == 0x3a
            &&& s.subrange(6, 6 + dx) == spec_u16_dec(m.x)
            &&& s[6 + o1] == 0x2c
            &&& s[7 + o1] == 0x22
            &&& s.subrange(8 + o1, 9 + o1) == key_y()
            &&& s[9 + o1] == 0x22
            &&& s[10 + o1] == 0x3a
            &&& s.subrange(11 + o1, 11 + o1 + dy) == spec_u16_dec(m.y)
            &&& s[11 + o2] == 0x2c
            &&& s[12 + o2] == 0x22
            &&& s.subrange(13 + o2, 19 + o2) == key_button()
            &&& s[19 + o2] == 0x22
            &&& s[20 + o2] == 0x3a
            &&& s.subrange(21 + o2, 21 + o2 + db) == spec_u16_dec(m.button as u16)
            &&& s[21 + o3] == 0x2c
            &&& s[22 + o3] == 0x22
            &&& s.subrange(23 + o3, 30 + o3) == key_pressed()
            &&& s[30 + o3] == 0x22
            &&& s[31 + o3] == 0x3a
            &&& s.subrange(32 + o3, 32 + o3 + pb) == spec_bool_bytes(m.pressed)
            &&& s[32 + o3 + pb] == 0x7d
        }),
{
    let s = spec_click_frame(m);
    let dx = spec_u16_dec(m.x).len() as int;
    let dy = spec_u16_dec(m.y).len() as int;
    let db = spec_u16_dec(m.button as u16).len() as int;
    let pb = spec_bool_bytes(m.pressed).len() as int;
    let o1 = dx;
    let o2 = dx + dy;
    let o3 = dx + dy + db;
    lemma_u16_dec_shape(m.x);
    lemma_u16_dec_shape(m.y);
    lemma_u16_dec_shape(m.button as u16);
    assert(s.subrange(3, 4) =~= key_x());
    assert(s.subrange(6, 6 + dx) =~= spec_u16_dec(m.x));
    assert(s.subrange(8 + o1, 9 + o1) =~= key_y());
    assert(s.subrange(11 + o1, 11 + o1 + dy) =~= spec_u16_dec(m.y));
    assert(s.subrange(13 + o2, 19 + o2) =~= key_button());
    assert(s.subrange(21 + o2, 21 + o2 + db) =~= spec_u16_dec(m.button as u16));
    assert(s.subrange(23 + o3, 30 + o3) =~= key_pressed());
    assert(s.subrange(32 + o3, 32 + o3 + pb) =~= spec_bool_bytes(m.pressed));
}

/// Parsing a frame laid out as a canonical click frame yields that click.
#[verifier::spinoff_prover]
#[verifier::rlimit(100)]
proof fn lemma_click_walk(s: Seq<u8>, m: MouseClickMessage)
    requires
        ({
            let dx = spec_u16_dec(m.x).len() as int;
            let dy = spec_u16_dec(m.y).len() as int;
            let db = spec_u16_dec(m.button as u16).len() as int;
            let pb = spec_bool_bytes(m.pressed).len() as int;
            let o1 = dx;
            let o2 = dx + dy;
            let o3 = dx + dy + db;
            &&& s.len() == 33 + o3 + pb
            &&& s[0] == MOUSE_EVENT
            &&& s[1] == 0x7b
            &&& s[2] == 0x22
            &&& s.subrange(3, 4) == key_x()
            &&& s[4] == 0x22
            &&& s[5] == 0x3a
            &&& s.subrange(6, 6 + dx) == spec_u16_dec(m.x)
            &&& s[6 + o1] == 0x2c
            &&& s[7 + o1] == 0x22
            &&& s.subrange(8 + o1, 9 + o1) == key_y()
            &&& s[9 + o1] == 0x22
            &&& s[10 + o1] == 0x3a
            &&& s.subrange(11 + o1, 11 + o1 + dy) == spec_u16_dec(m.y)
            &&& s[11 + o2] == 0x2c
            &&& s[12 + o2] == 0x22
            &&& s.subrange(13 + o2, 19 + o2) == key_button()
            &&& s[19 + o2] == 0x22
            &&& s[20 + o2] == 0x3a
            &&& s.subrange(21 + o2, 21 + o2 + db) == spec_u16_dec(m.button as u16)
            &&& s[21 + o3] == 0x2c
            &&& s[22 + o3] == 0x22
            &&& s.subrange(23 + o3, 30 + o3) == key_pressed()
            &&& s[30 + o3] == 0x22
            &&& s[31 + o3] == 0x3a
            &&& s.subrange(32 + o3, 32 + o3 + pb) == spec_bool_bytes(m.pressed)
            &&& s[32 + o3 + pb] == 0x7d
        }),
    ensures
        spec_parse(s) == Ok::<ClientMessageV, ProtocolError>(ClientMessageV::MouseClick(m)),
{
    let dx = spec_u16_dec(m.x).len() as int;
    let dy = spec_u16_dec(m.y).len() as int;
    let db = spec_u16_dec(m.button as u16).len() as int;
    let pb = spec_bool_bytes(m.pressed).len() as int;
    let o1 = dx;
    let o2 = dx + dy;
    let o3 = dx + dy + db;
    lemma_u16_dec_shape(m.x);
    lemma_u16_dec_shape(m.y);
    lemma_u16_dec_shape(m.button as u16);
    // the x member
    assert(forall|k: int| 0 <= k < 1 ==> 0x20 <= #[trigger] key_x()[k] < 0x80 && key_x()[k]
        != 0x22 && key_x()[k] != 0x5c);
    lemma_parse_string_of_plain_ascii(s, 2, key_x());
    lemma_skip_ws_at_non_ws(s, 5);
    assert(spec_u16_dec(m.x)[0] == s[6]);
    lemma_skip_ws_at_non_ws(s, 6);
    lemma_parse_u16_of_dec(s, 6, m.x);
    assert(spec_click_members(s, 2, None, None, None, None) == spec_click_tail(
        s,
        6 + dx,
        Some(m.x),
        None,
        None,
        None,
    ));
    lemma_skip_ws_at_non_ws(s, 6 + o1);
    lemma_skip_ws_at_non_ws(s, 7 + o1);
    assert(spec_click_tail(s, 6 + dx, Some(m.x), None, None, None) == spec_click_members(
        s,
        7 + o1,
        Some(m.x),
        None,
        None,
        None,
    ));

    // the y member
    assert(forall|k: int| 0 <= k < 1 ==> 0x20 <= #[trigger] key_y()[k] < 0x80 && key_y()[k]
        != 0x22 && key_y()[k] != 0x5c);
    lemma_parse_string_of_plain_ascii(s, 7 + o1, key_y());
    lemma_skip_ws_at_non_ws(s, 10 + o1);
    assert(spec_u16_dec(m.y)[0] == s[11 + o1]);
    lemma_skip_ws_at_non_ws(s, 11 + o1);
    lemma_parse_u16_of_dec(s, 11 + o1, m.y);
    assert(key_y()[0] != key_x()[0]);
    assert(spec_click_members(s, 7 + o1, Some(m.x), None, None, None) == spec_click_tail(
        s,
        11 + o1 + dy,
        Some(m.x),
        Some(m.y),
        None,
        None,
    ));
    lemma_skip_ws_at_non_ws(s, 11 + o2);
    lemma_skip_ws_at_non_ws(s, 12 + o2);
    assert(spec_click_tail(s, 11 + o2, Some(m.x), Some(m.y), None, None) == spec_click_members(
        s,
        12 + o2,
        Some(m.x),
        Some(m.y),
        None,
        None,
    ));

    // the button member
    assert(forall|k: int| 0 <= k < 6 ==> 0x20 <= #[trigger] key_button()[k] < 0x80
        && key_button()[k] != 0x22 && key_button()[k] != 0x5c);
    lemma_parse_string_of_plain_ascii(s, 12 + o2, key_button());
    lemma_skip_ws_at_non_ws(s, 20 + o2);
    assert(spec_u16_dec(m.button as u16)[0] == s[21 + o2]);
    lemma_skip_ws_at_non_ws(s, 21 + o2);
    lemma_parse_u16_of_dec(s, 21 + o2, m.button as u16);
    assert(key_button().len() != key_x().len() && key_button().len() != key_y().len());
    assert(spec_click_members(s, 12 + o2, Some(m.x), Some(m.y), None, None) == spec_click_tail(
        s,
        21 + o2 + db,
        Some(m.x),
        Some(m.y),
        Some(m.button),
        None,
    ));
    lemma_skip_ws_at_non_ws(s, 21 + o3);
    lemma_skip_ws_at_non_ws(s, 22 + o3);
    assert(spec_click_tail(s, 21 + o3, Some(m.x), Some(m.y), Some(m.button), None)
        == spec_click_members(s, 22 + o3, Some(m.x), Some(m.y), Some(m.button), None));

    // the pressed member
    assert(forall|k: int| 0 <= k < 7 ==> 0x20 <= #[trigger] key_pressed()[k] < 0x80
        && key_pressed()[k] != 0x22 && key_pressed()[k] != 0x5c);
    lemma_parse_string_of_plain_ascii(s, 22 + o3, key_pressed());
    lemma_skip_ws_at_non_ws(s, 31 + o3);
    lemma_skip_ws_at_non_ws(s, 32 + o3);
    assert(forall|k: int|
        0 <= k < pb ==> s[32 + o3 + k] == #[trigger] spec_bool_bytes(m.pressed)[k]) by {
        assert(forall|k: int|
            0 <= k < pb ==> s.subrange(32 + o3, 32 + o3 + pb)[k] == #[trigger] spec_bool_bytes(
                m.pressed,
            )[k]);
    }
    assert(spec_parse_bool(s, 32 + o3) == Some((m.pressed, 32 + o3 + pb)));
    assert(key_pressed().len() != key_x().len() && key_pressed().len() != key_y().len()
        && key_pressed().len() != key_button().len());
    assert(spec_click_members(s, 22 + o3, Some(m.x), Some(m.y), Some(m.button), None)
        == spec_click_tail(
        s,
        32 + o3 + pb,
        Some(m.x),
        Some(m.y),
        Some(m.button),
        Some(m.pressed),
    ));

    // the closing brace and the end of the frame
    lemma_skip_ws_at_non_ws(s, 32 + o3 + pb);
    assert(spec_click_tail(s, 32 + o3 + pb, Some(m.x), Some(m.y), Some(m.button), Some(m.pressed))
        == Some((m, 33 + o3 + pb)));
    lemma_skip_ws_at_non_ws(s, 1);
    lemma_skip_ws_at_non_ws(s, 2);
    lemma_skip_ws_at_non_ws(s, s.len() as int);
    assert(spec_parse_click_payload(s, 1) == Some(m));
}

/// Law: a mouse click survives the codec round trip. The canonical frame
/// for any click parses back to exactly that click.
pub proof fn lemma_click_round_trip(m: MouseClickMessage)
    ensures
        spec_parse(spec_click_frame(m)) == Ok::<ClientMessageV, ProtocolError>(
            ClientMessageV::MouseClick(m),
        ),
{
    lemma_click_frame_bytes(m);
    lemma_click_walk(spec_click_frame(m), m);
}

/// The byte layout of a canonical drag frame.
#[verifier::spinoff_prover]
#[verifier::rlimit(100)]
proof fn lemma_drag_frame_bytes(m: MouseDragMessage)
    ensures
        ({
            let s = spec_drag_frame(m);
            let dx = spec_u16_dec(m.x).len() as int;
            let dy = spec_u16_dec(m.y).len() as int;
            let db = spec_u16_dec(m.button as u16).len() as int;
            let dsx = spec_u16_dec(m.start_x).len() as int;
            let dsy = spec_u16_dec(m.start_y).len() as int;
            let o1 = dx;
            let o2 = dx + dy;
            let o3 = dx + dy + db;
            let o4 = dx + dy + db + dsx;
            &&& s.len() == 44 + o4 + dsy
            &&& s[0] == MOUSE_DRAG_EVENT
            &&& s[1] == 0x7b
            &&& s[2] == 0x22
            &&& s.subrange(3, 4) == key_x()
            &&& s[4] == 0x22
            &&& s[5] == 0x3a
            &&& s.subrange(6, 6 + dx) == spec_u16_dec(m.x)
            &&& s[6 + o1] == 0x2c
            &&& s[7 + o1] == 0x22
            &&& s.subrange(8 + o1, 9 + o1) == key_y()
            &&& s[9 + o1] == 0x22
            &&& s[10 + o1] == 0x3a
            &&& s.subrange(11 + o1, 11 + o1 + dy) == spec_u16_dec(m.y)
            &&& s[11 + o2] == 0x2c
            &&& s[12 + o2] == 0x22
            &&& s.subrange(13 + o2, 19 + o2) == key_button()
            &&& s[19 + o2] == 0x22
            &&& s[20 + o2] == 0x3a
            &&& s.subrange(21 + o2, 21 + o2 + db) == spec_u16_dec(m.button as u16)
            &&& s[21 + o3] == 0x2c
            &&& s[22 + o3] == 0x22
            &&& s.subrange(23 + o3, 30 + o3) == key_start_x()
            &&& s[30 + o3] == 0x22
            &&& s[31 + o3] == 0x3a
            &&& s.subrange(32 + o3, 32 + o3 + dsx) == spec_u16_dec(m.start_x)
            &&& s[32 + o4] == 0x2c
            &&& s[33 + o4] == 0x22
            &&& s.subrange(34 + o4, 41 + o4) == key_start_y()
            &&& s[41 + o4] == 0x22
            &&& s[42 + o4] == 0x3a
            &&& s.subrange(43 + o4, 43 + o4 + dsy) == spec_u16_dec(m.start_y)
            &&& s[43 + o4 + dsy] == 0x7d
        }),
{
    let s = spec_drag_frame(m);
    let dx = spec_u16_dec(m.x).len() as int;
    let dy = spec_u16_dec(m.y).len() as int;
    let db = spec_u16_dec(m.button as u16).len() as int;
    let dsx = spec_u16_dec(m.start_x).len() as int;
    let dsy = spec_u16_dec(m.start_y).len() as int;
    let o1 = dx;
    let o2 = dx + dy;
    let o3 = dx + dy + db;
    let o4 = dx + dy + db + dsx;
    lemma_u16_dec_shape(m.x);
    lemma_u16_dec_shape(m.y);
    lemma_u16_dec_shape(m.button as u16);
    lemma_u16_dec_shape(m.start_x);
    lemma_u16_dec_shape(m.start_y);
    assert(s.subrange(3, 4) =~= key_x());
    assert(s.subrange(6, 6 + dx) =~= spec_u16_dec(m.x));
    assert(s.subrange(8 + o1, 9 + o1) =~= key_y());
    assert(s.subrange(11 + o1, 11 + o1 + dy) =~= spec_u16_dec(m.y));
    assert(s.subrange(13 + o2, 19 + o2) =~= key_button());
    assert(s.subrange(21 + o2, 21 + o2 + db) =~= spec_u16_dec(m.button as u16));
    assert(s.subrange(23 + o3, 30 + o3) =~= key_start_x());
    assert(s.subrange(32 + o3, 32 + o3 + dsx) =~= spec_u16_dec(m.start_x));
    assert(s.subrange(34 + o4, 41 + o4) =~= key_start_y());
    assert(s.subrange(43 + o4, 43 + o4 + dsy) =~= spec_u16_dec(m.start_y));
}

/// The back half of a canonical drag frame: from the `start_x` member on,
/// the walk completes the drag.
#[verifier::spinoff_prover]
#[verifier::rlimit(100)]
proof fn lemma_drag_walk_back(s: Seq<u8>, m: MouseDragMessage)
    requires
        ({
            let dx = spec_u16_dec(m.x).len() as int;
            let dy = spec_u16_dec(m.y).len() as int;
            let db = spec_u16_dec(m.button as u16).len() as int;
            let dsx = spec_u16_dec(m.start_x).len() as int;
            let dsy = spec_u16_dec(m.start_y).len() as int;
            let o1 = dx;
            let o2 = dx + dy;
            let o3 = dx + dy + db;
            let o4 = dx + dy + db + dsx;
            &&& s.len() == 44 + o4 + dsy
            &&& s[0] == MOUSE_DRAG_EVENT
            &&& s[1] == 0x7b
            &&& s[2] == 0x22
            &&& s.subrange(3, 4) == key_x()
            &&& s[4] == 0x22
            &&& s[5] == 0x3a
            &&& s.subrange(6, 6 + dx) == spec_u16_dec(m.x)
            &&& s[6 + o1] == 0x2c
            &&& s[7 + o1] == 0x22
            &&& s.subrange(8 + o1, 9 + o1) == key_y()
            &&& s[9 + o1] == 0x22
            &&& s[10 + o1] == 0x3a
            &&& s.subrange(11 + o1, 11 + o1 + dy) == spec_u16_dec(m.y)
            &&& s[11 + o2] == 0x2c
            &&& s[12 + o2] == 0x22
            &&& s.subrange(13 + o2, 19 + o2) == key_button()
            &&& s[19 + o2] == 0x22
            &&& s[20 + o2] == 0x3a
            &&& s.subrange(21 + o2, 21 + o2 + db) == spec_u16_dec(m.button as u16)
            &&& s[21 + o3] == 0x2c
            &&& s[22 + o3] == 0x22
            &&& s.subrange(23 + o3, 30 + o3) == key_start_x()
            &&& s[30 + o3] == 0x22
            &&& s[31 + o3] == 0x3a
            &&& s.subrange(32 + o3, 32 + o3 + dsx) == spec_u16_dec(m.start_x)
            &&& s[32 + o4] == 0x2c
            &&& s[33 + o4] == 0x22
            &&& s.subrange(34 + o4, 41 + o4) == key_start_y()
            &&& s[41 + o4] == 0x22
            &&& s[42 + o4] == 0x3a
            &&& s.subrange(43 + o4, 43 + o4 + dsy) == spec_u16_dec(m.start_y)
            &&& s[43 + o4 + dsy] == 0x7d
        }),
    ensures
        ({
            let o3 = spec_u16_dec(m.x).len() as int + spec_u16_dec(m.y).len() as int
                + spec_u16_dec(m.button as u16).len() as int;
            let end = 44 + o3 + spec_u16_dec(m.start_x).len() as int + spec_u16_dec(
                m.start_y,
            ).len() as int;
            spec_drag_members(
                s,
                22 + o3,
                Some(m.x),
                Some(m.y),
                Some(m.button),
                None,
                None,
            ) == Some((m, end))
        }),
{
    let dx = spec_u16_dec(m.x).len() as int;
    let dy = spec_u16_dec(m.y).len() as int;
    let db = spec_u16_dec(m.button as u16).len() as int;
    let dsx = spec_u16_dec(m.start_x).len() as int;
    let dsy = spec_u16_dec(m.start_y).len() as int;
    let o1 = dx;
    let o2 = dx + dy;
    let o3 = dx + dy + db;
    let o4 = dx + dy + db + dsx;
    lemma_u16_dec_shape(m.x);
    lemma_u16_dec_shape(m.y);
    lemma_u16_dec_shape(m.button as u16);
    lemma_u16_dec_shape(m.start_x);
    lemma_u16_dec_shape(m.start_y);
    // the start_x member
    assert(forall|k: int| 0 <= k < 7 ==> 0x20 <= #[trigger] key_start_x()[k] < 0x80
        && key_start_x()[k] != 0x22 && key_start_x()[k] != 0x5c);
    lemma_parse_string_of_plain_ascii(s, 22 + o3, key_start_x());
    lemma_skip_ws_at_non_ws(s, 31 + o3);
    assert(spec_u16_dec(m.start_x)[0] == s[32 + o3]);
    lemma_skip_ws_at_non_ws(s, 32 + o3);
    lemma_parse_u16_of_dec(s, 32 + o3, m.start_x);
    assert(key_start_x().len() != key_x().len() && key_start_x().len() != key_y().len()
        && key_start_x().len() != key_button().len());
    assert(spec_drag_members(s, 22 + o3, Some(m.x), Some(m.y), Some(m.button), None, None)
        == spec_drag_tail(
        s,
        32 + o3 + dsx,
        Some(m.x),
        Some(m.y),
        Some(m.button),
        Some(m.start_x),
        None,
    ));
    lemma_skip_ws_at_non_ws(s, 32 + o4);
    lemma_skip_ws_at_non_ws(s, 33 + o4);
    assert(spec_drag_tail(s, 32 + o4, Some(m.x), Some(m.y), Some(m.button), Some(m.start_x), None)
        == spec_drag_members(
        s,
        33 + o4,
        Some(m.x),
        Some(m.y),
        Some(m.button),
        Some(m.start_x),
        None,
    ));

    // the start_y member
    assert(forall|k: int| 0 <= k < 7 ==> 0x20 <= #[trigger] key_start_y()[k] < 0x80
        && key_start_y()[k] != 0x22 && key_start_y()[k] != 0x5c);
    lemma_parse_string_of_plain_ascii(s, 33 + o4, key_start_y());
    lemma_skip_ws_at_non_ws(s, 42 + o4);
    assert(spec_u16_dec(m.start_y)[0] == s[43 + o4]);
    lemma_skip_ws_at_non_ws(s, 43 + o4);
    lemma_parse_u16_of_dec(s, 43 + o4, m.start_y);
    assert(key_start_y()[6] != key_start_x()[6]);
    assert(key_start_y().len() != key_x().len() && key_start_y().len() != key_y().len()
        && key_start_y().len() != key_button().len());
    assert(spec_drag_members(
        s,
        33 + o4,
        Some(m.x),
        Some(m.y),
        Some(m.button),
        Some(m.start_x),
        None,
    ) == spec_drag_tail(
        s,
        43 + o4 + dsy,
        Some(m.x),
        Some(m.y),
        Some(m.button),
        Some(m.start_x),
        Some(m.start_y),
    ));

    // the closing brace and the end of the frame
    lemma_skip_ws_at_non_ws(s, 43 + o4 + dsy);
    assert(spec_drag_tail(
        s,
        43 + o4 + dsy,
        Some(m.x),
        Some(m.y),
        Some(m.button),
        Some(m.start_x),
        Some(m.start_y),
    ) == Some((m, 44 + o4 + dsy)));
}

/// Parsing a frame laid out as a canonical drag frame yields that drag.
#[verifier::spinoff_prover]
#[verifier::rlimit(100)]
proof fn lemma_drag_walk(s: Seq<u8>, m: MouseDragMessage)
    requires
        ({
            let dx = spec_u16_dec(m.x).len() as int;
            let dy = spec_u16_dec(m.y).len() as int;
            let db = spec_u16_dec(m.button as u16).len() as int;
            let dsx = spec_u16_dec(m.start_x).len() as int;
            let dsy = spec_u16_dec(m.start_y).len() as int;
            let o1 = dx;
            let o2 = dx + dy;
            let o3 = dx + dy + db;
            let o4 = dx + dy + db + dsx;
            &&& s.len() == 44 + o4 + dsy
            &&& s[0] == MOUSE_DRAG_EVENT
            &&& s[1] == 0x7b
            &&& s[2] == 0x22
            &&& s.subrange(3, 4) == key_x()
            &&& s[4] == 0x22
            &&& s[5] == 0x3a
            &&& s.subrange(6, 6 + dx) == spec_u16_dec(m.x)
            &&& s[6 + o1] == 0x2c
            &&& s[7 + o1] == 0x22
            &&& s.subrange(8 + o1, 9 + o1) == key_y()
            &&& s[9 + o1] == 0x22
            &&& s[10 + o1] == 0x3a
            &&& s.subrange(11 + o1, 11 + o1 + dy) == spec_u16_dec(m.y)
            &&& s[11 + o2] == 0x2c
            &&& s[12 + o2] == 0x22
            &&& s.subrange(13 + o2, 19 + o2) == key_button()
            &&& s[19 + o2] == 0x22
            &&& s[20 + o2] == 0x3a
            &&& s.subrange(21 + o2, 21 + o2 + db) == spec_u16_dec(m.button as u16)
            &&& s[21 + o3] == 0x2c
            &&& s[22 + o3] == 0x22
            &&& s.subrange(23 + o3, 30 + o3) == key_start_x()
            &&& s[30 + o3] == 0x22
            &&& s[31 + o3] == 0x3a
            &&& s.subrange(32 + o3, 32 + o3 + dsx) == spec_u16_dec(m.start_x)
            &&& s[32 + o4] == 0x2c
            &&& s[33 + o4] == 0x22
            &&& s.subrange(34 + o4, 41 + o4) == key_start_y()
            &&& s[41 + o4] == 0x22
            &&& s[42 + o4] == 0x3a
            &&& s.subrange(43 + o4, 43 + o4 + dsy) == spec_u16_dec(m.start_y)
            &&& s[43 + o4 + dsy] == 0x7d
        }),
    ensures
        spec_parse(s) == Ok::<ClientMessageV, ProtocolError>(ClientMessageV::MouseDrag(m)),
{
    let dx = spec_u16_dec(m.x).len() as int;
    let dy = spec_u16_dec(m.y).len() as int;
    let db = spec_u16_dec(m.button as u16).len() as int;
    let dsx = spec_u16_dec(m.start_x).len() as int;
    let dsy = spec_u16_dec(m.start_y).len() as int;
    let o1 = dx;
    let o2 = dx + dy;
    let o3 = dx + dy + db;
    let o4 = dx + dy + db + dsx;
    lemma_u16_dec_shape(m.x);
    lemma_u16_dec_shape(m.y);
    lemma_u16_dec_shape(m.button as u16);
    lemma_u16_dec_shape(m.start_x);
    lemma_u16_dec_shape(m.start_y);
    // the x member
    assert(forall|k: int| 0 <= k < 1 ==> 0x20 <= #[trigger] key_x()[k] < 0x80 && key_x()[k]
        != 0x22 && key_x()[k] != 0x5c);
    lemma_parse_string_of_plain_ascii(s, 2, key_x());
    lemma_skip_ws_at_non_ws(s, 5);
    assert(spec_u16_dec(m.x)[0] == s[6]);
    lemma_skip_ws_at_non_ws(s, 6);
    lemma_parse_u16_of_dec(s, 6, m.x);
    assert(spec_drag_members(s, 2, None, None, None, None, None) == spec_drag_tail(
        s,
        6 + dx,
        Some(m.x),
        None,
        None,
        None,
        None,
    ));
    lemma_skip_ws_at_non_ws(s, 6 + o1);
    lemma_skip_ws_at_non_ws(s, 7 + o1);
    assert(spec_drag_tail(s, 6 + dx, Some(m.x), None, None, None, None) == spec_drag_members(
        s,
        7 + o1,
        Some(m.x),
        None,
        None,
        None,
        None,
    ));

    // the y member
    assert(forall|k: int| 0 <= k < 1 ==> 0x20 <= #[trigger] key_y()[k] < 0x80 && key_y()[k]
        != 0x22 && key_y()[k] != 0x5c);
    lemma_parse_string_of_plain_ascii(s, 7 + o1, key_y());
    lemma_skip_ws_at_non_ws(s, 10 + o1);
    assert(spec_u16_dec(m.y)[0] == s[11 + o1]);
    lemma_skip_ws_at_non_ws(s, 11 + o1);
    lemma_parse_u16_of_dec(s, 11 + o1, m.y);
    assert(key_y()[0] != key_x()[0]);
    assert(spec_drag_members(s, 7 + o1, Some(m.x), None, None, None, None) == spec_drag_tail(
        s,
        11 + o1 + dy,
        Some(m.x),
        Some(m.y),
        None,
        None,
        None,
    ));
    lemma_skip_ws_at_non_ws(s, 11 + o2);
    lemma_skip_ws_at_non_ws(s, 12 + o2);
    assert(spec_drag_tail(s, 11 + o2, Some(m.x), Some(m.y), None, None, None)
        == spec_drag_members(s, 12 + o2, Some(m.x), Some(m.y), None, None, None));

    // the button member
    assert(forall|k: int| 0 <= k < 6 ==> 0x20 <= #[trigger] key_button()[k] < 0x80
        && key_button()[k] != 0x22 && key_button()[k] != 0x5c);
    lemma_parse_string_of_plain_ascii(s, 12 + o2, key_button());
    lemma_skip_ws_at_non_ws(s, 20 + o2);
    assert(spec_u16_dec(m.button as u16)[0] == s[21 + o2]);
    lemma_skip_ws_at_non_ws(s, 21 + o2);
    lemma_parse_u16_of_dec(s, 21 + o2, m.button as u16);
    assert(key_button().len() != key_x().len() && key_button().len() != key_y().len());
    assert(spec_drag_members(s, 12 + o2, Some(m.x), Some(m.y), None, None, None)
        == spec_drag_tail(s, 21 + o2 + db, Some(m.x), Some(m.y), Some(m.button), None, None));
    lemma_skip_ws_at_non_ws(s, 21 + o3);
    lemma_skip_ws_at_non_ws(s, 22 + o3);
    assert(spec_drag_tail(s, 21 + o3, Some(m.x), Some(m.y), Some(m.button), None, None)
        == spec_drag_members(s, 22 + o3, Some(m.x), Some(m.y), Some(m.button), None, None));

    lemma_drag_walk_back(s, m);
    lemma_skip_ws_at_non_ws(s, 1);
    lemma_skip_ws_at_non_ws(s, 2);
    lemma_skip_ws_at_non_ws(s, s.len() as int);
    assert(spec_parse_drag_payload(s, 1) == Some(m));
}

/// Law: a mouse drag survives the codec round trip. The canonical frame for
/// any drag parses back to exactly that drag.
pub proof fn lemma_drag_round_trip(m: MouseDragMessage)
    ensures
        spec_parse(spec_drag_frame(m)) == Ok::<ClientMessageV, ProtocolError>(
            ClientMessageV::MouseDrag(m),
        ),
{
    lemma_drag_frame_bytes(m);
    lemma_drag_walk(spec_drag_frame(m), m);
}



} // verus!
