//! The Kwork mobile API as the client sees it: errors, the records it reads
//! from responses, request encoding and credential redaction.
use vstd::prelude::*;
use vstd::utf8::encode_utf8;

use crate::kwork::json::{
    as_bool, as_i64, as_str, as_u64, bool_of, get, get_field, i64_of, json_text, json_to_string,
    str_of, u64_of, Json, JsonNumber,
};
use crate::textops::{
    char_vec, dec, parse_unsigned, parse_unsigned_range, prefix, push_char, push_int, replace_all,
    starts_with, str_eq, str_replace, str_starts_with, take_chars,
};

verus! {

/// Why a Kwork request failed.
#[derive(Debug)]
pub enum ApiError {
    Auth(String),
    Http(String),
    Api(String),
    Io(String),
    Parse(String),
}

pub enum ApiErrorView {
    Auth(Seq<char>),
    Http(Seq<char>),
    Api(Seq<char>),
    Io(Seq<char>),
    Parse(Seq<char>),
}

impl View for ApiError {
    type V = ApiErrorView;

    open spec fn view(&self) -> ApiErrorView {
        match self {
            ApiError::Auth(s) => ApiErrorView::Auth(s@),
            ApiError::Http(s) => ApiErrorView::Http(s@),
            ApiError::Api(s) => ApiErrorView::Api(s@),
            ApiError::Io(s) => ApiErrorView::Io(s@),
            ApiError::Parse(s) => ApiErrorView::Parse(s@),
        }
    }
}

/// The text of an error: its kind, a colon, and its detail.
pub open spec fn api_error_text(e: ApiErrorView) -> Seq<char> {
    match e {
        ApiErrorView::Auth(s) => "auth: "@ + s,
        ApiErrorView::Http(s) => "http: "@ + s,
        ApiErrorView::Api(s) => "api: "@ + s,
        ApiErrorView::Io(s) => "io: "@ + s,
        ApiErrorView::Parse(s) => "parse: "@ + s,
    }
}

impl ApiError {
    /// The error as text, e.g. `"auth: signIn: no token"`.
    pub fn message(&self) -> (r: String)
        ensures
            r@ == api_error_text(self@),
    {
        let (prefix, detail) = match self {
            ApiError::Auth(s) => ("auth: ", s),
            ApiError::Http(s) => ("http: ", s),
            ApiError::Api(s) => ("api: ", s),
            ApiError::Io(s) => ("io: ", s),
            ApiError::Parse(s) => ("parse: ", s),
        };
        let mut out = prefix.to_owned();
        out.append(detail.as_str());
        out
    }

    /// Failures after which the connection is treated as lost: an
    /// authentication or transport failure.
    pub fn disconnects(&self) -> (r: bool)
        ensures
            r == (self@ is Auth || self@ is Http),
    {
        match self {
            ApiError::Auth(_) | ApiError::Http(_) => true,
            _ => false,
        }
    }

    pub fn is_auth(&self) -> (r: bool)
        ensures
            r == (self@ is Auth),
    {
        match self {
            ApiError::Auth(_) => true,
            _ => false,
        }
    }
}

// ---------------------------------------------------------------------------
// Redaction
// ---------------------------------------------------------------------------

/// The marker that stands in for a secret.
pub open spec fn redacted_marker() -> Seq<char> {
    "[redacted]"@
}

/// Every occurrence of each non-empty secret, in turn, replaced by the marker.
pub open spec fn redact_all(message: Seq<char>, secrets: Seq<Seq<char>>) -> Seq<char>
    decreases secrets.len(),
{
    if secrets.len() == 0 {
        message
    } else {
        let m = if secrets[0].len() == 0 {
            message
        } else {
            replace_all(message, secrets[0], redacted_marker())
        };
        redact_all(m, secrets.drop_first())
    }
}

pub open spec fn strs_view(s: Seq<&str>) -> Seq<Seq<char>> {
    s.map_values(|x: &str| x@)
}

/// Replaces every occurrence of each non-empty secret by `[redacted]`.
pub fn redact(message: &str, secrets: &[&str]) -> (r: String)
    ensures
        r@ == redact_all(message@, strs_view(secrets@)),
{
    let mut clean = message.to_owned();
    let n = secrets.len();
    let ghost sv = strs_view(secrets@);
    assert(sv.skip(0) =~= sv);
    for i in 0..n
        invariant
            n == secrets@.len(),
            sv == strs_view(secrets@),
            redact_all(message@, sv) == redact_all(clean@, sv.skip(i as int)),
    {
        let secret = secrets[i];
        assert(sv.skip(i as int)[0] == secret@);
        assert(sv.skip(i as int).drop_first() =~= sv.skip(i + 1));
        if !secret.is_empty() {
            proof {
                reveal_strlit("[redacted]");
            }
            clean = str_replace(clean.as_str(), secret, "[redacted]");
        }
    }
    assert(sv.skip(n as int) =~= Seq::<Seq<char>>::empty());
    clean
}

/// At most `max_chars` characters of `value`.
pub fn bounded(value: String, max_chars: usize) -> (r: String)
    ensures
        r@ == prefix(value@, max_chars as nat),
{
    take_chars(value.as_str(), max_chars)
}

/// An API message made safe to show: credentials and token redacted, then
/// cut to 200 characters.
pub open spec fn sanitized(message: Seq<char>, login: Seq<char>, password: Seq<char>, token: Seq<char>) -> Seq<char> {
    prefix(redact_all(message, seq![login, password, token]), 200)
}

/// Redacts the login, password and token from `message` and bounds it.
pub fn sanitize_text(message: &str, login: &str, password: &str, token: &str) -> (r: String)
    ensures
        r@ == sanitized(message@, login@, password@, token@),
{
    let secrets = [login, password, token];
    let s = secrets.as_slice();
    assert(strs_view(s@) =~= seq![login@, password@, token@]);
    bounded(redact(message, s), 200)
}

// ---------------------------------------------------------------------------
// Request encoding
// ---------------------------------------------------------------------------

/// Upper-case hexadecimal digit for `d` (0..=15).
pub open spec fn hex_upper(d: u8) -> char {
    if d < 10 {
        (d + 48) as char
    } else {
        (d + 55) as char
    }
}

/// `0123456789ABCDEF[n]`.
pub fn hex(n: u8) -> (c: char)
    requires
        n < 16,
    ensures
        c == hex_upper(n),
{
    if n < 10 {
        (n + 48u8) as char
    } else {
        (n + 55u8) as char
    }
}

/// Bytes left as they are in a form field.
pub open spec fn unreserved(b: u8) -> bool {
    ||| (65 <= b && b <= 90)
    ||| (97 <= b && b <= 122)
    ||| (48 <= b && b <= 57)
    ||| b == 45
    ||| b == 95
    ||| b == 46
    ||| b == 126
}

/// The form encoding of one byte.
pub open spec fn form_byte(b: u8) -> Seq<char> {
    if unreserved(b) {
        seq![b as char]
    } else if b == 32 {
        seq!['+']
    } else {
        seq!['%', hex_upper(b / 16), hex_upper(b % 16)]
    }
}

pub open spec fn form_bytes(bs: Seq<u8>) -> Seq<char>
    decreases bs.len(),
{
    if bs.len() == 0 {
        Seq::empty()
    } else {
        form_bytes(bs.drop_last()) + form_byte(bs.last())
    }
}

/// `application/x-www-form-urlencoded` text of a string: unreserved ASCII
/// kept, space as `+`, every other UTF-8 byte as `%XX`.
pub open spec fn form_encoded(s: Seq<char>) -> Seq<char> {
    form_bytes(encode_utf8(s))
}

/// Form-encodes a string.
pub fn urlencoding_minimal(s: &str) -> (r: String)
    ensures
        r@ == form_encoded(s@),
{
    let bytes = s.as_bytes();
    let n = bytes.len();
    let mut out = String::new();
    for i in 0..n
        invariant
            n == bytes@.len(),
            bytes@ == encode_utf8(s@),
            out@ == form_bytes(bytes@.take(i as int)),
    {
        let b = bytes[i];
        let ghost before = out@;
        assert(bytes@.take(i + 1).drop_last() =~= bytes@.take(i as int));
        if (65 <= b && b <= 90) || (97 <= b && b <= 122) || (48 <= b && b <= 57) || b == 45 || b
            == 95 || b == 46 || b == 126 {
            push_char(&mut out, b as char);
        } else if b == 32 {
            push_char(&mut out, '+');
        } else {
            push_char(&mut out, '%');
            push_char(&mut out, hex(b / 16));
            push_char(&mut out, hex(b % 16));
        }
        assert(out@ =~= before + form_byte(b));
    }
    assert(bytes@.take(n as int) =~= bytes@);
    out
}

/// `k=v` pairs, each side form-encoded, joined by `&`.
pub open spec fn form_text(fields: Seq<(Seq<char>, Seq<char>)>) -> Seq<char>
    decreases fields.len(),
{
    if fields.len() == 0 {
        Seq::empty()
    } else {
        let last = form_encoded(fields.last().0) + "="@ + form_encoded(fields.last().1);
        if fields.len() == 1 {
            last
        } else {
            form_text(fields.drop_last()) + "&"@ + last
        }
    }
}

pub open spec fn fields_view(f: Seq<(&str, &str)>) -> Seq<(Seq<char>, Seq<char>)> {
    f.map_values(|p: (&str, &str)| (p.0@, p.1@))
}

/// Encodes form fields as a request body.
pub fn encode_form(fields: &[(&str, &str)]) -> (r: String)
    ensures
        r@ == form_text(fields_view(fields@)),
{
    let mut out = String::new();
    let n = fields.len();
    for i in 0..n
        invariant
            n == fields@.len(),
            out@ == form_text(fields_view(fields@.take(i as int))),
    {
        let (k, v) = fields[i];
        assert(fields_view(fields@.take(i + 1)).drop_last() =~= fields_view(
            fields@.take(i as int),
        ));
        if i > 0 {
            out.append("&");
        }
        out.append(urlencoding_minimal(k).as_str());
        out.append("=");
        out.append(urlencoding_minimal(v).as_str());
    }
    assert(fields@.take(n as int) =~= fields@);
    out
}

/// The character of a six-bit value in the standard base64 alphabet
/// (`A–Z a–z 0–9 + /`).
pub open spec fn base64_digit(v: u8) -> char {
    if v < 26 {
        (v + 65) as char
    } else if v < 52 {
        (v + 71) as char
    } else if v < 62 {
        ((v - 52) + 48) as char
    } else if v == 62 {
        '+'
    } else {
        '/'
    }
}

/// Standard base64 with `=` padding (RFC 4648): each group of three bytes
/// becomes four characters; a last group of one or two bytes is padded.
pub open spec fn base64_standard(bytes: Seq<u8>) -> Seq<char>
    decreases bytes.len(),
{
    if bytes.len() == 0 {
        Seq::empty()
    } else if bytes.len() == 1 {
        let a = bytes[0];
        seq![base64_digit(a >> 2), base64_digit(((a & 3) << 4) as u8), '=', '=']
    } else if bytes.len() == 2 {
        let a = bytes[0];
        let b = bytes[1];
        seq![
            base64_digit(a >> 2),
            base64_digit((((a & 3) << 4) | (b >> 4)) as u8),
            base64_digit(((b & 15) << 2) as u8),
            '=',
        ]
    } else {
        let a = bytes[0];
        let b = bytes[1];
        let c = bytes[2];
        seq![
            base64_digit(a >> 2),
            base64_digit((((a & 3) << 4) | (b >> 4)) as u8),
            base64_digit((((b & 15) << 2) | (c >> 6)) as u8),
            base64_digit(c & 63),
        ] + base64_standard(bytes.skip(3))
    }
}

/// `base64::engine::general_purpose::STANDARD.encode(bytes)`: the crate's
/// standard engine encodes with the standard alphabet and `=` padding.
#[verifier::external_body]
fn base64_encode(bytes: &[u8]) -> (r: String)
    ensures
        r@ == base64_standard(bytes@),
{
    base64::Engine::encode(&base64::engine::general_purpose::STANDARD, bytes)
}

/// The value of an HTTP Basic `Authorization` header.
pub fn ureq_basic_auth(user: &str, pass: &str) -> (r: String)
    ensures
        r@ == "Basic "@ + base64_standard(encode_utf8(user@ + ":"@ + pass@)),
{
    let mut raw = user.to_owned();
    raw.append(":");
    raw.append(pass);
    let mut out = "Basic ".to_owned();
    out.append(base64_encode(raw.as_str().as_bytes()).as_str());
    out
}

} // verus!

verus! {

// ---------------------------------------------------------------------------
// Records read from responses
// ---------------------------------------------------------------------------

/// One inbox dialog.
#[derive(Debug)]
pub struct Dialog {
    pub username: String,
    pub user_id: i64,
    pub unread: bool,
    pub unread_count: i64,
    pub last_message: String,
    pub time: i64,
    pub link: String,
}

pub struct DialogView {
    pub username: Seq<char>,
    pub user_id: i64,
    pub unread: bool,
    pub unread_count: i64,
    pub last_message: Seq<char>,
    pub time: i64,
    pub link: Seq<char>,
}

impl View for Dialog {
    type V = DialogView;

    open spec fn view(&self) -> DialogView {
        DialogView {
            username: self.username@,
            user_id: self.user_id,
            unread: self.unread,
            unread_count: self.unread_count,
            last_message: self.last_message@,
            time: self.time,
            link: self.link@,
        }
    }
}

/// Views and orders of one of the seller's kworks.
#[derive(Debug)]
pub struct KworkActivity {
    pub id: i64,
    pub name: String,
    pub views: i64,
    pub orders: i64,
}

pub struct KworkActivityView {
    pub id: i64,
    pub name: Seq<char>,
    pub views: i64,
    pub orders: i64,
}

impl View for KworkActivity {
    type V = KworkActivityView;

    open spec fn view(&self) -> KworkActivityView {
        KworkActivityView { id: self.id, name: self.name@, views: self.views, orders: self.orders }
    }
}

/// One worker order.
#[derive(Debug)]
pub struct OrderInfo {
    pub id: i64,
    pub status: String,
    pub title: String,
    pub username: String,
}

pub struct OrderView {
    pub id: i64,
    pub status: Seq<char>,
    pub title: Seq<char>,
    pub username: Seq<char>,
}

impl View for OrderInfo {
    type V = OrderView;

    open spec fn view(&self) -> OrderView {
        OrderView { id: self.id, status: self.status@, title: self.title@, username: self.username@ }
    }
}

pub open spec fn or_i64(o: Option<i64>, d: i64) -> i64 {
    match o {
        Some(v) => v,
        None => d,
    }
}

pub open spec fn or_str(o: Option<Seq<char>>, d: Seq<char>) -> Seq<char> {
    match o {
        Some(v) => v,
        None => d,
    }
}

pub open spec fn or_json(a: Option<Json>, b: Option<Json>) -> Option<Json> {
    if a is Some {
        a
    } else {
        b
    }
}

/// A dialog link made absolute; without one, the dialog's inbox page.
pub open spec fn dialog_link(link: Option<Seq<char>>, user_id: i64) -> Seq<char> {
    match link {
        Some(l) => if starts_with(l, "http"@) {
            l
        } else {
            "https://kwork.ru"@ + l
        },
        None => "https://kwork.ru/inbox/"@ + dec(user_id as int),
    }
}

/// One dialog as read from its JSON item; missing fields take defaults and a
/// positive unread count marks it unread.
pub open spec fn dialog_of(item: Json) -> DialogView {
    let user_id = or_i64(i64_of(get_field(item, "user_id"@)), 0);
    let unread_count = or_i64(i64_of(get_field(item, "unread_count"@)), 0);
    DialogView {
        username: or_str(str_of(get_field(item, "username"@)), ""@),
        user_id,
        unread: match bool_of(get_field(item, "unread"@)) {
            Some(b) => b,
            None => false,
        } || unread_count > 0,
        unread_count,
        last_message: or_str(str_of(get_field(item, "last_message"@)), ""@),
        time: or_i64(i64_of(get_field(item, "time"@)), 0),
        link: dialog_link(str_of(get_field(item, "link"@)), user_id),
    }
}

fn parse_dialog(item: &Json) -> (d: Dialog)
    ensures
        d@ == dialog_of(*item),
{
    proof {
        reveal_strlit("");
    }
    let user_id = match as_i64(get(item, "user_id")) {
        Some(v) => v,
        None => 0,
    };
    let unread_count = match as_i64(get(item, "unread_count")) {
        Some(v) => v,
        None => 0,
    };
    let username = match as_str(get(item, "username")) {
        Some(s) => s.to_owned(),
        None => String::new(),
    };
    let unread = match as_bool(get(item, "unread")) {
        Some(b) => b,
        None => false,
    } || unread_count > 0;
    let last_message = match as_str(get(item, "last_message")) {
        Some(s) => s.to_owned(),
        None => String::new(),
    };
    let time = match as_i64(get(item, "time")) {
        Some(v) => v,
        None => 0,
    };
    let link = match as_str(get(item, "link")) {
        Some(l) => {
            if str_starts_with(l, "http") {
                l.to_owned()
            } else {
                let mut s = "https://kwork.ru".to_owned();
                s.append(l);
                s
            }
        },
        None => {
            let mut s = "https://kwork.ru/inbox/".to_owned();
            push_int(&mut s, user_id as i128);
            s
        },
    };
    let d = Dialog { username, user_id, unread, unread_count, last_message, time, link };
    let ghost e = dialog_of(*item);
    assert(d@.username == e.username);
    assert(d@.user_id == e.user_id);
    assert(d@.unread == e.unread);
    assert(d@.last_message == e.last_message);
    assert(d@.time == e.time);
    assert(d@.link == e.link);
    d
}

/// Dialogs from a `dialogs` response, which must be an array.
pub open spec fn dialogs_of(value: Json) -> Option<Seq<DialogView>> {
    match value {
        Json::Array(v) => Some(v@.map_values(|i: Json| dialog_of(i))),
        _ => None,
    }
}

/// Reads the dialog list; anything but an array is a parse error.
pub fn parse_dialogs(value: &Json) -> (r: Result<Vec<Dialog>, ApiError>)
    ensures
        match r {
            Ok(ds) => dialogs_of(*value) == Some(ds@.map_values(|d: Dialog| d@)),
            Err(e) => dialogs_of(*value) is None && e@ == ApiErrorView::Parse(
                "dialogs: expected an array"@,
            ),
        },
{
    match value {
        Json::Array(list) => {
            let mut out: Vec<Dialog> = Vec::new();
            let n = list.len();
            for i in 0..n
                invariant
                    n == list@.len(),
                    out@.len() == i,
                    forall|k: int| 0 <= k < i ==> (#[trigger] out@[k])@ == dialog_of(list@[k]),
            {
                out.push(parse_dialog(&list[i]));
            }
            assert(out@.map_values(|d: Dialog| d@) =~= list@.map_values(|i: Json| dialog_of(i)));
            Ok(out)
        },
        _ => Err(ApiError::Parse("dialogs: expected an array".to_owned())),
    }
}

/// One kwork as read from its JSON item.
pub open spec fn kwork_of(item: Json) -> KworkActivityView {
    let activity = get_field(item, "activity"@);
    KworkActivityView {
        id: or_i64(i64_of(get_field(item, "id"@)), 0),
        name: or_str(str_of(get_field(item, "title"@)), "?"@),
        views: or_i64(i64_of(crate::kwork::json::field_of(activity, "views"@)), 0),
        orders: or_i64(i64_of(crate::kwork::json::field_of(activity, "orders"@)), 0),
    }
}

fn parse_kwork(item: &Json) -> (k: KworkActivity)
    ensures
        k@ == kwork_of(*item),
{
    let activity = get(item, "activity");
    let id = match as_i64(get(item, "id")) {
        Some(v) => v,
        None => 0,
    };
    let name = match as_str(get(item, "title")) {
        Some(s) => s.to_owned(),
        None => "?".to_owned(),
    };
    let views = match as_i64(crate::kwork::json::get_in(activity, "views")) {
        Some(v) => v,
        None => 0,
    };
    let orders = match as_i64(crate::kwork::json::get_in(activity, "orders")) {
        Some(v) => v,
        None => 0,
    };
    KworkActivity { id, name, views, orders }
}

/// Kworks from a `userKworks` response, which must be an array.
pub open spec fn kworks_of(value: Json) -> Option<Seq<KworkActivityView>> {
    match value {
        Json::Array(v) => Some(v@.map_values(|i: Json| kwork_of(i))),
        _ => None,
    }
}

/// Reads the seller's kworks; anything but an array is a parse error.
pub fn parse_kworks(value: &Json) -> (r: Result<Vec<KworkActivity>, ApiError>)
    ensures
        match r {
            Ok(ks) => kworks_of(*value) == Some(ks@.map_values(|k: KworkActivity| k@)),
            Err(e) => kworks_of(*value) is None && e@ == ApiErrorView::Parse(
                "userKworks: expected an array"@,
            ),
        },
{
    match value {
        Json::Array(list) => {
            let mut out: Vec<KworkActivity> = Vec::new();
            let n = list.len();
            for i in 0..n
                invariant
                    n == list@.len(),
                    out@.len() == i,
                    forall|k: int| 0 <= k < i ==> (#[trigger] out@[k])@ == kwork_of(list@[k]),
            {
                out.push(parse_kwork(&list[i]));
            }
            assert(out@.map_values(|k: KworkActivity| k@) =~= list@.map_values(
                |i: Json| kwork_of(i),
            ));
            Ok(out)
        },
        _ => Err(ApiError::Parse("userKworks: expected an array".to_owned())),
    }
}

/// The order list inside a `workerOrders` response: the value itself, or its
/// `orders` or `list` member, whichever is first an array.
pub open spec fn order_list(value: Json) -> Option<Seq<Json>> {
    match value {
        Json::Array(v) => Some(v@),
        _ => match get_field(value, "orders"@) {
            Some(Json::Array(v)) => Some(v@),
            _ => match get_field(value, "list"@) {
                Some(Json::Array(v)) => Some(v@),
                _ => None,
            },
        },
    }
}

/// An order's status as text: a string as is, a number as written, anything
/// else as its JSON text; `"?"` when absent.
pub open spec fn status_text(o: Option<Json>) -> Seq<char> {
    match o {
        Some(Json::Str(s)) => s@,
        Some(Json::Number(n)) => n.text@,
        Some(j) => json_text(j),
        None => "?"@,
    }
}

/// An order's id (`order_id`, else `id`; 0 when absent or not an integer).
pub open spec fn order_id_of(item: Json) -> i64 {
    or_i64(i64_of(or_json(get_field(item, "order_id"@), get_field(item, "id"@))), 0)
}

/// One order as read from its JSON item.
pub open spec fn order_of(item: Json) -> OrderView {
    OrderView {
        id: order_id_of(item),
        status: status_text(or_json(get_field(item, "status"@), get_field(item, "status_name"@))),
        title: or_str(
            str_of(
                or_json(
                    get_field(item, "kwork_title"@),
                    or_json(get_field(item, "title"@), get_field(item, "name"@)),
                ),
            ),
            "order"@,
        ),
        username: or_str(
            str_of(or_json(get_field(item, "username"@), get_field(item, "payer_username"@))),
            ""@,
        ),
    }
}

/// The orders of a list, skipping items without a usable id.
pub open spec fn orders_in(items: Seq<Json>) -> Seq<OrderView>
    decreases items.len(),
{
    if items.len() == 0 {
        Seq::empty()
    } else {
        let rest = orders_in(items.drop_last());
        if order_id_of(items.last()) == 0 {
            rest
        } else {
            rest.push(order_of(items.last()))
        }
    }
}

/// The orders of a response; none when it holds no order list.
pub open spec fn orders_of(value: Json) -> Seq<OrderView> {
    match order_list(value) {
        Some(items) => orders_in(items),
        None => Seq::empty(),
    }
}

fn first_of<'a>(a: Option<&'a Json>, b: Option<&'a Json>) -> (r: Option<&'a Json>)
    ensures
        crate::kwork::json::opt_json(r) == or_json(
            crate::kwork::json::opt_json(a),
            crate::kwork::json::opt_json(b),
        ),
{
    match a {
        Some(_) => a,
        None => b,
    }
}

fn parse_order(item: &Json) -> (o: OrderInfo)
    ensures
        o@ == order_of(*item),
{
    proof {
        reveal_strlit("");
    }
    let id = match as_i64(first_of(get(item, "order_id"), get(item, "id"))) {
        Some(v) => v,
        None => 0,
    };
    let status = match first_of(get(item, "status"), get(item, "status_name")) {
        Some(Json::Str(s)) => s.clone(),
        Some(Json::Number(n)) => n.text.clone(),
        Some(j) => json_to_string(j),
        None => "?".to_owned(),
    };
    let title = match as_str(
        first_of(get(item, "kwork_title"), first_of(get(item, "title"), get(item, "name"))),
    ) {
        Some(s) => s.to_owned(),
        None => "order".to_owned(),
    };
    let username = match as_str(first_of(get(item, "username"), get(item, "payer_username"))) {
        Some(s) => s.to_owned(),
        None => String::new(),
    };
    let o = OrderInfo { id, status, title, username };
    let ghost e = order_of(*item);
    assert(o@.id == e.id);
    assert(o@.status == e.status);
    assert(o@.title == e.title);
    assert(o@.username == e.username);
    o
}

fn order_list_of(value: &Json) -> (r: Option<&Vec<Json>>)
    ensures
        match r {
            Some(v) => order_list(*value) == Some(v@),
            None => order_list(*value) is None,
        },
{
    match value {
        Json::Array(v) => Some(v),
        _ => match get(value, "orders") {
            Some(Json::Array(v)) => Some(v),
            _ => match get(value, "list") {
                Some(Json::Array(v)) => Some(v),
                _ => None,
            },
        },
    }
}

/// Reads the orders of one `workerOrders` page.
pub fn parse_orders(value: &Json) -> (r: Vec<OrderInfo>)
    ensures
        r@.map_values(|o: OrderInfo| o@) == orders_of(*value),
{
    let list = match order_list_of(value) {
        Some(l) => l,
        None => {
            let out: Vec<OrderInfo> = Vec::new();
            assert(out@.map_values(|o: OrderInfo| o@) =~= Seq::<OrderView>::empty());
            return out;
        },
    };
    let mut out: Vec<OrderInfo> = Vec::new();
    let n = list.len();
    for i in 0..n
        invariant
            n == list@.len(),
            out@.map_values(|o: OrderInfo| o@) == orders_in(list@.take(i as int)),
    {
        assert(list@.take(i + 1).drop_last() =~= list@.take(i as int));
        let o = parse_order(&list[i]);
        if o.id != 0 {
            let ghost before = out@.map_values(|o: OrderInfo| o@);
            out.push(o);
            assert(out@.map_values(|o: OrderInfo| o@) =~= before.push(order_of(list@[i as int])));
        }
    }
    assert(list@.take(n as int) =~= list@);
    out
}

/// The kwork list is complete when the actor's kwork count is known and
/// reached.
pub fn snapshot_complete(expected: Option<usize>, actual: usize) -> (r: bool)
    ensures
        r == match expected {
            Some(e) => actual >= e,
            None => false,
        },
{
    match expected {
        Some(e) => actual >= e,
        None => false,
    }
}

} // verus!

verus! {

// ---------------------------------------------------------------------------
// Response envelopes
// ---------------------------------------------------------------------------

/// A page count as a response gives it: an unsigned number, or a decimal
/// string; in `u32` range; at least 1.
pub open spec fn page_number(o: Option<Json>) -> Option<u32> {
    let raw: Option<nat> = match o {
        Some(Json::Number(n)) => match n.as_u64 {
            Some(x) => Some(x as nat),
            None => None,
        },
        Some(Json::Str(s)) => parse_unsigned(s@, u64::MAX as nat),
        _ => None,
    };
    match raw {
        Some(p) => if p <= u32::MAX {
            Some(
                if p == 0 {
                    1u32
                } else {
                    p as u32
                },
            )
        } else {
            None
        },
        None => None,
    }
}

/// The last page a response announces: the first of `last_page`,
/// `total_pages`, `pages`, `page_count` that holds a page count, else what a
/// `pagination`, `paging` or `pager` member announces.
pub open spec fn last_page_of(j: Json) -> Option<u32>
    decreases j,
{
    if page_number(get_field(j, "last_page"@)) is Some {
        page_number(get_field(j, "last_page"@))
    } else if page_number(get_field(j, "total_pages"@)) is Some {
        page_number(get_field(j, "total_pages"@))
    } else if page_number(get_field(j, "pages"@)) is Some {
        page_number(get_field(j, "pages"@))
    } else if page_number(get_field(j, "page_count"@)) is Some {
        page_number(get_field(j, "page_count"@))
    } else {
        let a = match get_field(j, "pagination"@) {
            Some(x) => {
                proof {
                    crate::kwork::json::lemma_field_decreases(j, "pagination"@);
                }
                last_page_of(x)
            },
            None => None,
        };
        let b = match get_field(j, "paging"@) {
            Some(x) => {
                proof {
                    crate::kwork::json::lemma_field_decreases(j, "paging"@);
                }
                last_page_of(x)
            },
            None => None,
        };
        let c = match get_field(j, "pager"@) {
            Some(x) => {
                proof {
                    crate::kwork::json::lemma_field_decreases(j, "pager"@);
                }
                last_page_of(x)
            },
            None => None,
        };
        if a is Some {
            a
        } else if b is Some {
            b
        } else {
            c
        }
    }
}

fn page_number_exec(o: Option<&Json>) -> (r: Option<u32>)
    ensures
        r == page_number(crate::kwork::json::opt_json(o)),
{
    let raw: Option<u64> = match o {
        Some(Json::Number(n)) => n.as_u64,
        Some(Json::Str(s)) => {
            let cs = char_vec(s.as_str());
            assert(cs@.subrange(0, cs@.len() as int) =~= cs@);
            parse_unsigned_range(&cs, 0, cs.len(), u64::MAX)
        },
        _ => None,
    };
    match raw {
        Some(p) => if p <= u32::MAX as u64 {
            Some(
                if p == 0 {
                    1u32
                } else {
                    p as u32
                },
            )
        } else {
            None
        },
        None => None,
    }
}

fn container_page(value: &Json, key: &str) -> (r: Option<u32>)
    ensures
        r == match get_field(*value, key@) {
            Some(x) => last_page_of(x),
            None => None,
        },
    decreases value, 1nat,
{
    match get(value, key) {
        Some(sub) => {
            proof {
                crate::kwork::json::lemma_field_decreases(*value, key@);
            }
            last_page(sub)
        },
        None => None,
    }
}

/// The last page a `workerOrders` response announces, if any.
pub fn last_page(value: &Json) -> (r: Option<u32>)
    ensures
        r == last_page_of(*value),
    decreases value, 2nat,
{
    let p = page_number_exec(get(value, "last_page"));
    if p.is_some() {
        return p;
    }
    let p = page_number_exec(get(value, "total_pages"));
    if p.is_some() {
        return p;
    }
    let p = page_number_exec(get(value, "pages"));
    if p.is_some() {
        return p;
    }
    let p = page_number_exec(get(value, "page_count"));
    if p.is_some() {
        return p;
    }
    let a = container_page(value, "pagination");
    if a.is_some() {
        return a;
    }
    let b = container_page(value, "paging");
    if b.is_some() {
        return b;
    }
    container_page(value, "pager")
}

} // verus!

verus! {

/// What `str::to_lowercase` gives for a string (full Unicode lower-casing).
pub uninterp spec fn unicode_lowercase(s: Seq<char>) -> Seq<char>;

/// `str::to_lowercase`.
#[verifier::external_body]
fn to_lowercase(s: &str) -> (r: String)
    ensures
        r@ == unicode_lowercase(s@),
{
    s.to_lowercase()
}

/// `body.success == false`.
pub open spec fn reports_failure(body: Json) -> bool {
    bool_of(get_field(body, "success"@)) == Some(false)
}

/// The error text of a response body (empty without an `error` member).
pub open spec fn error_text(body: Json) -> Seq<char> {
    match get_field(body, "error"@) {
        Some(e) => json_text(e),
        None => ""@,
    }
}

/// A failed response that calls for signing in again: error code 401 or 403,
/// or an error text mentioning a token or authorization.
pub open spec fn auth_failure(body: Json) -> bool {
    let code = or_i64(i64_of(get_field(body, "error_code"@)), 0);
    let lower = unicode_lowercase(error_text(body));
    &&& reports_failure(body)
    &&& (code == 401 || code == 403 || crate::textops::contains_seq(lower, "token"@)
        || crate::textops::contains_seq(lower, "авторизац"@))
}

/// Whether a response asks for a fresh sign-in (the client then retries
/// once).
pub fn needs_reauth(body: &Json) -> (r: bool)
    ensures
        r == auth_failure(*body),
{
    if as_bool(get(body, "success")) != Some(false) {
        return false;
    }
    proof {
        reveal_strlit("");
    }
    let err = match get(body, "error") {
        Some(e) => json_to_string(e),
        None => String::new(),
    };
    let code = match as_i64(get(body, "error_code")) {
        Some(c) => c,
        None => 0,
    };
    assert(err@ == error_text(*body));
    let lower = to_lowercase(err.as_str());
    code == 401 || code == 403 || crate::textops::str_contains(lower.as_str(), "token")
        || crate::textops::str_contains(lower.as_str(), "авторизац")
}

/// The payload of a response: its `response` member, or the body itself;
/// a failure report with an error becomes an API error (sanitized).
pub open spec fn response_result(
    body: Json,
    login: Seq<char>,
    password: Seq<char>,
    token: Seq<char>,
) -> Result<Json, ApiErrorView> {
    if reports_failure(body) && get_field(body, "error"@) is Some {
        Err(ApiErrorView::Api(sanitized(json_text(get_field(body, "error"@)->0), login, password, token)))
    } else {
        match get_field(body, "response"@) {
            Some(r) => Ok(r),
            None => Ok(body),
        }
    }
}

fn take_member(body: Json, key: &str) -> (r: Result<Json, Json>)
    ensures
        match get_field(body, key@) {
            Some(x) => r == Ok::<Json, Json>(x),
            None => r == Err::<Json, Json>(body),
        },
{
    match body {
        Json::Object(mut v) => {
            let n = v.len();
            let mut i: usize = 0;
            assert(v@.skip(0) =~= v@);
            while i < n
                invariant
                    n == v@.len(),
                    i <= n,
                    body == Json::Object(v),
                    crate::kwork::json::member(v@, key@) == crate::kwork::json::member(
                        v@.skip(i as int),
                        key@,
                    ),
                decreases n - i,
            {
                assert(v@.skip(i as int).drop_first() =~= v@.skip(i + 1));
                assert(v@.skip(i as int)[0] == v@[i as int]);
                if str_eq_string(&v[i].0, key) {
                    let ghost x = v@[i as int].1;
                    let (_, val) = v.remove(i);
                    return Ok(val);
                }
                i = i + 1;
            }
            assert(v@.skip(n as int) =~= Seq::<(String, Json)>::empty());
            Err(Json::Object(v))
        },
        other => Err(other),
    }
}

fn str_eq_string(a: &String, b: &str) -> (r: bool)
    ensures
        r == (a@ == b@),
{
    crate::textops::str_eq(a.as_str(), b)
}

/// Unwraps a response envelope; a failure report with an error is returned
/// as an API error with its text sanitized.
pub fn response_field(body: Json, login: &str, password: &str, token: &str) -> (r: Result<
    Json,
    ApiError,
>)
    ensures
        match r {
            Ok(j) => response_result(body, login@, password@, token@) == Ok::<Json, ApiErrorView>(j),
            Err(e) => response_result(body, login@, password@, token@) == Err::<Json, ApiErrorView>(
                e@,
            ),
        },
{
    if as_bool(get(&body, "success")) == Some(false) {
        match get(&body, "error") {
            Some(err) => {
                let text = json_to_string(err);
                return Err(ApiError::Api(sanitize_text(text.as_str(), login, password, token)));
            },
            None => {},
        }
    }
    match take_member(body, "response") {
        Ok(r) => Ok(r),
        Err(b) => Ok(b),
    }
}

/// The token a `signIn` response grants, or why sign-in failed.
pub open spec fn sign_in_result(
    body: Json,
    login: Seq<char>,
    password: Seq<char>,
    token: Seq<char>,
) -> Result<Seq<char>, ApiErrorView> {
    if bool_of(get_field(body, "success"@)) != Some(true) {
        let err = match get_field(body, "error"@) {
            Some(e) => sanitized(json_text(e), login, password, token),
            None => "unexpected response"@,
        };
        Err(ApiErrorView::Auth("signIn failed: "@ + err))
    } else {
        match get_field(body, "response"@) {
            None => Err(ApiErrorView::Auth("signIn: no response"@)),
            Some(resp) => match str_of(get_field(resp, "token"@)) {
                None => Err(ApiErrorView::Auth("signIn: no token"@)),
                Some(t) => Ok(t),
            },
        }
    }
}

/// Reads the token from a `signIn` response.
pub fn parse_sign_in(body: &Json, login: &str, password: &str, token: &str) -> (r: Result<
    String,
    ApiError,
>)
    ensures
        match r {
            Ok(t) => sign_in_result(*body, login@, password@, token@) == Ok::<
                Seq<char>,
                ApiErrorView,
            >(t@),
            Err(e) => sign_in_result(*body, login@, password@, token@) == Err::<
                Seq<char>,
                ApiErrorView,
            >(e@),
        },
{
    if as_bool(get(body, "success")) != Some(true) {
        let err = match get(body, "error") {
            Some(e) => sanitize_text(json_to_string(e).as_str(), login, password, token),
            None => "unexpected response".to_owned(),
        };
        let mut m = "signIn failed: ".to_owned();
        m.append(err.as_str());
        return Err(ApiError::Auth(m));
    }
    let resp = match get(body, "response") {
        Some(r) => r,
        None => return Err(ApiError::Auth("signIn: no response".to_owned())),
    };
    match as_str(get(resp, "token")) {
        Some(t) => Ok(t.to_owned()),
        None => Err(ApiError::Auth("signIn: no token".to_owned())),
    }
}

/// `kworks_count` as an unsigned count that fits `usize`.
pub open spec fn expected_kworks(resp: Json) -> Option<usize> {
    match u64_of(get_field(resp, "kworks_count"@)) {
        Some(c) => if c <= usize::MAX {
            Some(c as usize)
        } else {
            None
        },
        None => None,
    }
}

fn expected_kworks_exec(resp: &Json) -> (r: Option<usize>)
    ensures
        r == expected_kworks(*resp),
{
    match as_u64(get(resp, "kworks_count")) {
        Some(c) => if c as u128 <= usize::MAX as u128 {
            Some(c as usize)
        } else {
            None
        },
        None => None,
    }
}

/// Reads the seller id (and expected kwork count) from an `actor` payload.
pub fn parse_actor_id(resp: &Json) -> (r: Result<(i64, Option<usize>), ApiError>)
    ensures
        match i64_of(get_field(*resp, "id"@)) {
            Some(id) => r == Ok::<(i64, Option<usize>), ApiError>((id, expected_kworks(*resp))),
            None => r matches Err(e) && e@ == ApiErrorView::Parse("actor: no id"@),
        },
{
    match as_i64(get(resp, "id")) {
        Some(id) => Ok((id, expected_kworks_exec(resp))),
        None => Err(ApiError::Parse("actor: no id".to_owned())),
    }
}

/// The integer and text figures of the seller account (the money amounts
/// and the rating are read by the caller).
#[derive(Debug)]
pub struct ActorInfo {
    pub username: String,
    pub good_reviews: i64,
    pub bad_reviews: i64,
    pub unread_dialog_count: i64,
    pub unread_messages_count: i64,
    pub kworks_count: i64,
    pub completed_orders_count: i64,
}

pub struct ActorView {
    pub username: Seq<char>,
    pub good_reviews: i64,
    pub bad_reviews: i64,
    pub unread_dialog_count: i64,
    pub unread_messages_count: i64,
    pub kworks_count: i64,
    pub completed_orders_count: i64,
}

impl View for ActorInfo {
    type V = ActorView;

    open spec fn view(&self) -> ActorView {
        ActorView {
            username: self.username@,
            good_reviews: self.good_reviews,
            bad_reviews: self.bad_reviews,
            unread_dialog_count: self.unread_dialog_count,
            unread_messages_count: self.unread_messages_count,
            kworks_count: self.kworks_count,
            completed_orders_count: self.completed_orders_count,
        }
    }
}

/// The account figures of an `actor` payload; missing ones are empty or 0.
pub open spec fn actor_of(resp: Json) -> ActorView {
    ActorView {
        username: or_str(str_of(get_field(resp, "username"@)), ""@),
        good_reviews: or_i64(i64_of(get_field(resp, "good_reviews"@)), 0),
        bad_reviews: or_i64(i64_of(get_field(resp, "bad_reviews"@)), 0),
        unread_dialog_count: or_i64(i64_of(get_field(resp, "unread_dialog_count"@)), 0),
        unread_messages_count: or_i64(i64_of(get_field(resp, "unread_messages_count"@)), 0),
        kworks_count: or_i64(i64_of(get_field(resp, "kworks_count"@)), 0),
        completed_orders_count: or_i64(i64_of(get_field(resp, "completed_orders_count"@)), 0),
    }
}

fn i64_or_zero(resp: &Json, key: &str) -> (r: i64)
    ensures
        r == or_i64(i64_of(get_field(*resp, key@)), 0),
{
    match as_i64(get(resp, key)) {
        Some(v) => v,
        None => 0,
    }
}

/// Reads the account figures, the seller id when present and the expected
/// kwork count from an `actor` payload.
pub fn parse_actor(resp: &Json) -> (r: (ActorInfo, Option<i64>, Option<usize>))
    ensures
        r.0@ == actor_of(*resp),
        r.1 == i64_of(get_field(*resp, "id"@)),
        r.2 == expected_kworks(*resp),
{
    proof {
        reveal_strlit("");
    }
    let username = match as_str(get(resp, "username")) {
        Some(s) => s.to_owned(),
        None => String::new(),
    };
    let info = ActorInfo {
        username,
        good_reviews: i64_or_zero(resp, "good_reviews"),
        bad_reviews: i64_or_zero(resp, "bad_reviews"),
        unread_dialog_count: i64_or_zero(resp, "unread_dialog_count"),
        unread_messages_count: i64_or_zero(resp, "unread_messages_count"),
        kworks_count: i64_or_zero(resp, "kworks_count"),
        completed_orders_count: i64_or_zero(resp, "completed_orders_count"),
    };
    let ghost e = actor_of(*resp);
    assert(info@.username == e.username);
    assert(info@.good_reviews == e.good_reviews);
    assert(info@.bad_reviews == e.bad_reviews);
    assert(info@.unread_dialog_count == e.unread_dialog_count);
    assert(info@.unread_messages_count == e.unread_messages_count);
    assert(info@.kworks_count == e.kworks_count);
    assert(info@.completed_orders_count == e.completed_orders_count);
    (info, as_i64(get(resp, "id")), expected_kworks_exec(resp))
}

/// Active and total connects from a `projects` body (0 when absent).
pub fn parse_connects(body: &Json) -> (r: (i64, i64))
    ensures
        r == (
            or_i64(i64_of(crate::kwork::json::field_of(get_field(*body, "connects"@), "active_connects"@)), 0),
            or_i64(i64_of(crate::kwork::json::field_of(get_field(*body, "connects"@), "all_connects"@)), 0),
        ),
{
    let connects = get(body, "connects");
    let active = match as_i64(crate::kwork::json::get_in(connects, "active_connects")) {
        Some(v) => v,
        None => 0,
    };
    let all = match as_i64(crate::kwork::json::get_in(connects, "all_connects")) {
        Some(v) => v,
        None => 0,
    };
    (active, all)
}

/// Refuses a connection attempt without credentials.
pub fn check_credentials(login: &str, password: &str) -> (r: Result<(), ApiError>)
    ensures
        r is Ok <==> (login@.len() > 0 && password@.len() > 0),
        r matches Err(e) ==> e@ == ApiErrorView::Auth(
            "KWORK_LOGIN and KWORK_PASSWORD are required"@,
        ),
{
    if login.is_empty() || password.is_empty() {
        Err(ApiError::Auth("KWORK_LOGIN and KWORK_PASSWORD are required".to_owned()))
    } else {
        Ok(())
    }
}

} // verus!

verus! {

// ---------------------------------------------------------------------------
// Worker-order pagination
// ---------------------------------------------------------------------------

/// Pages of worker orders requested at most.
pub const MAX_ORDER_PAGES: u32 = 20;

/// Worker orders collected at most.
pub const MAX_ORDERS: usize = 2000;

/// Some order in `acc` has this id.
pub open spec fn has_order_id(acc: Seq<OrderView>, id: i64) -> bool {
    exists|i: int| 0 <= i < acc.len() && acc[i].id == id
}

/// Adds a page's orders to those collected, skipping ids already present and
/// stopping once the cap is reached: the collection, how many were added, and
/// whether the cap was hit.
pub open spec fn merge_orders(acc: Seq<OrderView>, items: Seq<OrderView>) -> (Seq<OrderView>, nat, bool)
    decreases items.len(),
{
    if items.len() == 0 {
        (acc, 0, false)
    } else if has_order_id(acc, items[0].id) {
        merge_orders(acc, items.drop_first())
    } else {
        let acc2 = acc.push(items[0]);
        if acc2.len() >= MAX_ORDERS {
            (acc2, 1, true)
        } else {
            let (a, n, f) = merge_orders(acc2, items.drop_first());
            (a, n + 1, f)
        }
    }
}

/// What to do after a page has been taken in.
#[derive(Debug)]
pub enum PageOutcome {
    /// Ask for the next page.
    More,
    /// All orders are collected.
    Finished,
    /// The API reported an error.
    Failed(ApiError),
}

/// Collects worker orders page by page: the caller asks for `next_page`,
/// fetches it and hands the response to `absorb`.
pub struct OrderPager {
    orders: Vec<OrderInfo>,
    seen: std::collections::BTreeSet<i64>,
    page: u32,
    done: bool,
}

pub struct PagerView {
    pub orders: Seq<OrderView>,
    pub page: u32,
    pub done: bool,
}

impl View for OrderPager {
    type V = PagerView;

    closed spec fn view(&self) -> PagerView {
        PagerView {
            orders: self.orders@.map_values(|o: OrderInfo| o@),
            page: self.page,
            done: self.done,
        }
    }
}

/// The pager after a response for page `p.page`, and what follows.
pub open spec fn absorb_result(
    p: PagerView,
    body: Json,
    login: Seq<char>,
    password: Seq<char>,
    token: Seq<char>,
) -> (PagerView, Option<ApiErrorView>, bool) {
    if p.done {
        (p, None, false)
    } else if reports_failure(body) && or_i64(i64_of(get_field(body, "error_code"@)), 0) == 151 {
        (PagerView { done: true, ..p }, None, false)
    } else if reports_failure(body) && get_field(body, "error"@) is Some {
        (
            PagerView { done: true, ..p },
            Some(ApiErrorView::Api(sanitized(json_text(get_field(body, "error"@)->0), login, password, token))),
            false,
        )
    } else {
        let response = match get_field(body, "response"@) {
            Some(r) => r,
            None => body,
        };
        let last = if last_page_of(body) is Some {
            last_page_of(body)
        } else {
            last_page_of(response)
        };
        let (orders, added, full) = merge_orders(p.orders, orders_of(response));
        if full || added == 0 || (last matches Some(l) && p.page >= l) || p.page >= MAX_ORDER_PAGES {
            (PagerView { orders, page: p.page, done: true }, None, false)
        } else {
            (PagerView { orders, page: (p.page + 1) as u32, done: false }, None, true)
        }
    }
}

impl OrderPager {
    pub closed spec fn inv(&self) -> bool {
        &&& self.seen@ == Set::new(|id: i64| has_order_id(self.orders@.map_values(|o: OrderInfo| o@), id))
        &&& 1 <= self.page <= MAX_ORDER_PAGES
        &&& self.orders@.len() < MAX_ORDERS || self.done
    }

    /// A pager at page 1 with nothing collected.
    pub fn new() -> (r: OrderPager)
        ensures
            r.inv(),
            r@ == (PagerView { orders: Seq::empty(), page: 1, done: false }),
    {
        let r = OrderPager {
            orders: Vec::new(),
            seen: std::collections::BTreeSet::new(),
            page: 1,
            done: false,
        };
        assert(r.orders@.map_values(|o: OrderInfo| o@) =~= Seq::<OrderView>::empty());
        assert(r.seen@ =~= Set::new(|id: i64| has_order_id(r.orders@.map_values(|o: OrderInfo| o@), id)));
        r
    }

    /// The page to request next, if any.
    pub fn next_page(&self) -> (r: Option<u32>)
        ensures
            r == (if self@.done {
                None
            } else {
                Some(self@.page)
            }),
    {
        if self.done {
            None
        } else {
            Some(self.page)
        }
    }

    /// The orders collected, in the order they arrived.
    pub fn into_orders(self) -> (r: Vec<OrderInfo>)
        ensures
            r@.map_values(|o: OrderInfo| o@) == self@.orders,
    {
        self.orders
    }

    /// Takes in the response for the current page: stops at error code 151,
    /// fails on any other reported error, adds the page's new orders (up to
    /// the cap), and moves to the next page unless nothing new came, the
    /// announced last page or the page limit was reached.
    pub fn absorb(&mut self, body: Json, login: &str, password: &str, token: &str) -> (r: PageOutcome)
        requires
            old(self).inv(),
        ensures
            final(self).inv(),
            ({
                let (v, err, more) = absorb_result(old(self)@, body, login@, password@, token@);
                &&& final(self)@ == v
                &&& match r {
                    PageOutcome::More => err is None && more,
                    PageOutcome::Finished => err is None && !more,
                    PageOutcome::Failed(e) => err == Some(e@),
                }
            }),
    {
        if self.done {
            return PageOutcome::Finished;
        }
        if as_bool(get(&body, "success")) == Some(false) {
            let code = match as_i64(get(&body, "error_code")) {
                Some(c) => c,
                None => 0,
            };
            if code == 151 {
                self.done = true;
                return PageOutcome::Finished;
            }
            match get(&body, "error") {
                Some(err) => {
                    let text = json_to_string(err);
                    self.done = true;
                    return PageOutcome::Failed(
                        ApiError::Api(sanitize_text(text.as_str(), login, password, token)),
                    );
                },
                None => {},
            }
        }
        let body_last = last_page(&body);
        let ghost body_view = body;
        let response = match take_member(body, "response") {
            Ok(r) => r,
            Err(b) => b,
        };
        let response_last = last_page(&response);
        let page_orders = parse_orders(&response);
        let ghost items = page_orders@.map_values(|o: OrderInfo| o@);
        let ghost start = self.orders@.map_values(|o: OrderInfo| o@);
        let mut added: usize = 0;
        let mut full = false;
        let n = page_orders.len();
        let mut i: usize = 0;
        let mut rest = page_orders;
        assert(items.skip(0) =~= items);
        while i < n && !full
            invariant
                n == items.len(),
                i <= n,
                rest@.len() == n - i,
                forall|k: int| 0 <= k < n - i ==> (#[trigger] rest@[k])@ == items[i + k],
                self.seen@ == Set::new(
                    |id: i64| has_order_id(self.orders@.map_values(|o: OrderInfo| o@), id),
                ),
                full ==> merge_orders(start, items) == (
                    self.orders@.map_values(|o: OrderInfo| o@),
                    added as nat,
                    true,
                ),
                !full ==> self.orders@.len() < MAX_ORDERS,
                !full ==> merge_orders(start, items) == ({
                    let (a, m, f) = merge_orders(
                        self.orders@.map_values(|o: OrderInfo| o@),
                        items.skip(i as int),
                    );
                    (a, (m + added) as nat, f)
                }),
                self.page == old(self).page,
                !self.done,
                1 <= self.page <= MAX_ORDER_PAGES,
                added <= i,
            decreases n - i,
        {
            let o = rest.remove(0);
            assert(o@ == items[i as int]);
            let ghost cur = self.orders@.map_values(|o: OrderInfo| o@);
            assert(items.skip(i as int)[0] == items[i as int]);
            assert(items.skip(i as int).drop_first() =~= items.skip(i + 1));
            if self.seen.insert(o.id) {
                self.orders.push(o);
                added = added + 1;
                let ghost now_orders = self.orders@.map_values(|o: OrderInfo| o@);
                assert(now_orders =~= cur.push(items[i as int]));
                assert(self.seen@ =~= Set::new(|id: i64| has_order_id(now_orders, id))) by {
                    assert forall|id: i64| has_order_id(now_orders, id) <==> (has_order_id(cur, id)
                        || id == items[i as int].id) by {
                        if has_order_id(now_orders, id) {
                            let k = choose|k: int| 0 <= k < now_orders.len() && now_orders[k].id == id;
                            if k < cur.len() {
                                assert(cur[k].id == id);
                            }
                        }
                        if has_order_id(cur, id) {
                            let k = choose|k: int| 0 <= k < cur.len() && cur[k].id == id;
                            assert(now_orders[k].id == id);
                        }
                        if id == items[i as int].id {
                            assert(now_orders[cur.len() as int].id == id);
                        }
                    }
                }
                if self.orders.len() >= MAX_ORDERS {
                    full = true;
                }
            } else {
                assert(has_order_id(cur, items[i as int].id));
            }
            i = i + 1;
        }
        proof {
            if !full {
                assert(items.skip(n as int) =~= Seq::<OrderView>::empty());
            }
        }
        let last = if body_last.is_some() {
            body_last
        } else {
            response_last
        };
        let at_last = match last {
            Some(l) => self.page >= l,
            None => false,
        };
        if full || added == 0 || at_last || self.page >= MAX_ORDER_PAGES {
            self.done = true;
            PageOutcome::Finished
        } else {
            self.page = self.page + 1;
            PageOutcome::More
        }
    }
}

} // verus!

verus! {

// ---------------------------------------------------------------------------
// Requests and responses
// ---------------------------------------------------------------------------

/// Responses larger than this many bytes are refused.
pub const MAX_RESPONSE_BYTES: usize = 2097152;

/// The URL of an API endpoint, with the form-encoded token as a query
/// parameter when there is one.
pub open spec fn endpoint_url_of(endpoint: Seq<char>, token: Option<Seq<char>>) -> Seq<char> {
    let base = "https://api.kwork.ru/"@ + endpoint;
    match token {
        Some(t) => base + "?token="@ + form_encoded(t),
        None => base,
    }
}

/// The URL to post to for `endpoint`.
pub fn endpoint_url(endpoint: &str, token: Option<&str>) -> (r: String)
    ensures
        r@ == endpoint_url_of(endpoint@, crate::textops::opt_str_view(token)),
{
    let mut url = "https://api.kwork.ru/".to_owned();
    url.append(endpoint);
    match token {
        Some(t) => {
            url.append("?token=");
            let enc = urlencoding_minimal(t);
            url.append(enc.as_str());
        },
        None => {},
    }
    url
}

/// A transport failure of a request, with the token, password and login
/// redacted from the transport's message.
pub fn request_failure(endpoint: &str, message: &str, token: &str, password: &str, login: &str) -> (r: ApiError)
    ensures
        r@ == ApiErrorView::Http(
            "request "@ + endpoint@ + " failed: "@ + redact_all(message@, seq![token@, password@, login@]),
        ),
{
    let secrets = [token, password, login];
    let s = secrets.as_slice();
    assert(strs_view(s@) =~= seq![token@, password@, login@]);
    let clean = redact(message, s);
    let mut t = "request ".to_owned();
    t.append(endpoint);
    t.append(" failed: ");
    t.append(clean.as_str());
    ApiError::Http(t)
}

/// A response whose status is not in 200..=299 is an HTTP failure.
pub fn status_failure(status: u16, endpoint: &str) -> (r: Option<ApiError>)
    ensures
        (200 <= status < 300) <==> r is None,
        r matches Some(e) ==> e@ == ApiErrorView::Http(
            "HTTP "@ + crate::textops::dec(status as int) + " for "@ + endpoint@,
        ),
{
    if 200 <= status && status < 300 {
        None
    } else {
        let mut t = "HTTP ".to_owned();
        let code = crate::textops::int_text(status as i128);
        t.append(code.as_str());
        t.append(" for ");
        t.append(endpoint);
        Some(ApiError::Http(t))
    }
}

/// `String::from_utf8`: the text of the bytes when they are valid UTF-8, or
/// the decoder's description of the first invalid sequence.
#[verifier::external_body]
fn utf8_text(bytes: Vec<u8>) -> (r: Result<String, String>)
    ensures
        r is Ok <==> vstd::utf8::valid_utf8(bytes@),
        r matches Ok(s) ==> s@ == vstd::utf8::decode_utf8(bytes@),
{
    String::from_utf8(bytes).map_err(|e| e.to_string())
}

/// A response body read in chunks, refused once it grows past
/// `MAX_RESPONSE_BYTES`.
pub struct ResponseBody {
    bytes: Vec<u8>,
}

impl View for ResponseBody {
    type V = Seq<u8>;

    closed spec fn view(&self) -> Seq<u8> {
        self.bytes@
    }
}

/// The failure of an oversized response.
pub open spec fn oversized_failure(endpoint: Seq<char>) -> ApiErrorView {
    ApiErrorView::Http("response from "@ + endpoint + " exceeds 2097152 bytes"@)
}

impl ResponseBody {
    /// An empty body.
    pub fn new() -> (r: ResponseBody)
        ensures
            r@ == Seq::<u8>::empty(),
    {
        ResponseBody { bytes: Vec::new() }
    }

    /// Appends a chunk that was read, unless the body would then exceed the
    /// limit; in that case the body is left as it was and the failure comes
    /// back.
    pub fn absorb(&mut self, chunk: &[u8], endpoint: &str) -> (r: Result<(), ApiError>)
        ensures
            old(self)@.len() + chunk@.len() > MAX_RESPONSE_BYTES ==> final(self)@ == old(self)@
                && (r matches Err(e) && e@ == oversized_failure(endpoint@)),
            old(self)@.len() + chunk@.len() <= MAX_RESPONSE_BYTES ==> r is Ok && final(self)@ == old(
                self,
            )@ + chunk@,
            old(self)@.len() <= MAX_RESPONSE_BYTES ==> final(self)@.len() <= MAX_RESPONSE_BYTES,
    {
        if chunk.len() > MAX_RESPONSE_BYTES || self.bytes.len() > MAX_RESPONSE_BYTES - chunk.len() {
            let mut t = "response from ".to_owned();
            t.append(endpoint);
            t.append(" exceeds 2097152 bytes");
            return Err(ApiError::Http(t));
        }
        let n = chunk.len();
        let ghost start = self.bytes@;
        for i in 0..n
            invariant
                n == chunk@.len(),
                self.bytes@ == start + chunk@.take(i as int),
        {
            self.bytes.push(chunk[i]);
            assert(chunk@.take(i + 1) =~= chunk@.take(i as int).push(chunk@[i as int]));
        }
        assert(chunk@.take(n as int) =~= chunk@);
        Ok(())
    }

    /// The body as text; a body that is not UTF-8 is a parse failure that
    /// names the endpoint.
    pub fn into_text(self, endpoint: &str) -> (r: Result<String, ApiError>)
        ensures
            r is Ok <==> vstd::utf8::valid_utf8(self@),
            r matches Ok(s) ==> s@ == vstd::utf8::decode_utf8(self@),
            r matches Err(e) ==> exists|detail: Seq<char>|
                e@ == ApiErrorView::Parse(#[trigger] ("non-UTF-8 response from "@ + endpoint@ + ": "@ + detail)),
    {
        match utf8_text(self.bytes) {
            Ok(s) => Ok(s),
            Err(detail) => {
                let mut t = "non-UTF-8 response from ".to_owned();
                t.append(endpoint);
                t.append(": ");
                t.append(detail.as_str());
                proof {
                    assert(t@ =~= "non-UTF-8 response from "@ + endpoint@ + ": "@ + detail@);
                }
                Err(ApiError::Parse(t))
            },
        }
    }
}

} // verus!

verus! {

// ---------------------------------------------------------------------------
// Decoding response text
// ---------------------------------------------------------------------------

/// `serde_json::Value`, the document the decoder produces.
#[verifier::external_type_specification]
#[verifier::external_body]
pub struct ExJsonValue(serde_json::Value);

/// The document `serde_json::from_str::<Value>` decodes from a text, taken
/// member by member into a `Json`; `None` when the text is not JSON.
pub uninterp spec fn json_decode(text: Seq<char>) -> Option<Json>;

/// A decoded `Value` as a `Json`, member by member and in the decoder's
/// order; numbers keep their rendering and their integer readings.
#[verifier::external_body]
fn json_of_value(v: serde_json::Value) -> Json {
    match v {
        serde_json::Value::Null => Json::Null,
        serde_json::Value::Bool(b) => Json::Bool(b),
        serde_json::Value::Number(n) => Json::Number(
            JsonNumber { text: n.to_string(), as_i64: n.as_i64(), as_u64: n.as_u64() },
        ),
        serde_json::Value::String(s) => Json::Str(s),
        serde_json::Value::Array(a) => Json::Array(a.into_iter().map(json_of_value).collect()),
        serde_json::Value::Object(m) => Json::Object(m.into_iter().map(|(k, x)| (k, json_of_value(x))).collect()),
    }
}

/// `serde_json::from_str::<Value>(text)`, converted; on failure the
/// decoder's description of the error.
#[verifier::external_body]
fn decode_json(text: &str) -> (r: Result<Json, String>)
    ensures
        match json_decode(text@) {
            Some(j) => r == Ok::<Json, String>(j),
            None => r is Err,
        },
{
    serde_json::from_str::<serde_json::Value>(text).map(json_of_value).map_err(|e| e.to_string())
}

/// The JSON document of a response body; text that is not JSON is a parse
/// failure naming the endpoint.
pub fn parse_response(text: &str, endpoint: &str) -> (r: Result<Json, ApiError>)
    ensures
        match json_decode(text@) {
            Some(j) => r == Ok::<Json, ApiError>(j),
            None => r matches Err(e) && exists|detail: Seq<char>|
                e@ == ApiErrorView::Parse(#[trigger] ("invalid JSON from "@ + endpoint@ + ": "@ + detail)),
        },
{
    match decode_json(text) {
        Ok(j) => Ok(j),
        Err(detail) => {
            let mut t = "invalid JSON from ".to_owned();
            t.append(endpoint);
            t.append(": ");
            t.append(detail.as_str());
            proof {
                assert(t@ =~= "invalid JSON from "@ + endpoint@ + ": "@ + detail@);
            }
            Err(ApiError::Parse(t))
        },
    }
}

} // verus!

verus! {

// ---------------------------------------------------------------------------
// Signing in again
// ---------------------------------------------------------------------------

/// What to do with a response to an authenticated request.
#[derive(Debug)]
pub enum PostAction {
    /// Use the response as it is.
    Accept,
    /// Drop the token, sign in again and repeat the request once.
    SignInAndRetry,
}

/// A first response that calls for a fresh sign-in is retried once after
/// signing in; a repeated request's response is taken as it is.
pub fn after_post(first_attempt: bool, body: &Json) -> (r: PostAction)
    ensures
        r == (if first_attempt && auth_failure(*body) {
            PostAction::SignInAndRetry
        } else {
            PostAction::Accept
        }),
{
    if first_attempt && needs_reauth(body) {
        PostAction::SignInAndRetry
    } else {
        PostAction::Accept
    }
}

} // verus!
