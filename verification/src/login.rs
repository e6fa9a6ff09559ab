//! The game's web login page: reading its hidden form state and session
//! cookies for the user to log in by hand, its address, and how the
//! server's reply to a login is judged.  Nothing here builds a request
//! that carries account data.
use crate::crypto::hwid_in_output;
use crate::external::{base64_encode, base64_encoding, first_capture, regex_first_capture, string_of};
use crate::models::{ApiResponse, CaptchaResponse};
use crate::text::{
    char_position, chars_of, concat_chars, contains, decimal_of, has_infix, index_of,
    int_decimal, join, join_chars, lemma_index_of_facts, lemma_int_decimal_value,
    signed_text_value, slice_chars, text_concat,
};
use vstd::prelude::*;
use vstd::utf8::{decode_utf8, encode_utf8, encode_utf8_decode_utf8, is_char_boundary};

verus! {

pub open spec fn viewstate_pattern() -> Seq<char> {
    "id=\"__VIEWSTATE\" value=\"([^\"]+)\""@
}

pub open spec fn eventvalidation_pattern() -> Seq<char> {
    "id=\"__EVENTVALIDATION\" value=\"([^\"]+)\""@
}

pub open spec fn viewstategenerator_pattern() -> Seq<char> {
    "id=\"__VIEWSTATEGENERATOR\" value=\"([^\"]+)\""@
}

/// The value that `pattern` captures in the page, or the empty text where
/// it captures none.
pub open spec fn form_field(html: Seq<char>, pattern: Seq<char>) -> Seq<char> {
    match regex_first_capture(pattern, html) {
        Some(v) => v,
        None => seq![],
    }
}

/// The `name=value` part of a `Set-Cookie` header: the text before the
/// first `;`.
pub open spec fn cookie_pair_of(set_cookie: Seq<char>) -> Seq<char> {
    match index_of(set_cookie, ';') {
        Some(k) => set_cookie.take(k),
        None => set_cookie,
    }
}

/// The login page's address for a game server.
pub open spec fn login_url_for(server: Seq<char>, port: i32) -> Seq<char> {
    "http://www.istanbuloyun.com/logingame.aspx?server="@ + server + ":"@ + int_decimal(port as int)
}

/// The login address names the given server and port: it is the fixed
/// page address, the server, a `:`, and a text that reads back (as
/// `str::parse` reads an integer) as exactly the given port.  So two
/// different ports never give the same address.
pub proof fn lemma_login_url_names_port(server: Seq<char>, port: i32, other: i32)
    ensures
        ({
            let u = login_url_for(server, port);
            let head = "http://www.istanbuloyun.com/logingame.aspx?server="@ + server;
            &&& u.take(head.len() as int) == head
            &&& u[head.len() as int] == ':'
            &&& signed_text_value(u.skip(head.len() + 1int)) == Some(port as int)
        }),
        login_url_for(server, port) == login_url_for(server, other) ==> port == other,
{
    reveal_strlit(":");
    let head = "http://www.istanbuloyun.com/logingame.aspx?server="@ + server;
    let u = login_url_for(server, port);
    assert(u =~= head + ":"@ + int_decimal(port as int));
    assert(u[head.len() as int] == ':');
    let v = login_url_for(server, other);
    assert(v =~= head + ":"@ + int_decimal(other as int));
    assert(u.take(head.len() as int) =~= head);
    assert(u.skip(head.len() + 1int) =~= int_decimal(port as int));
    assert(v.skip(head.len() + 1int) =~= int_decimal(other as int));
    lemma_int_decimal_value(port as int);
    lemma_int_decimal_value(other as int);
}

/// The server accepted the login: its reply holds both `user=` and `pass=`.
pub open spec fn login_accepted(body: Seq<char>) -> bool {
    contains(body, "user="@) && contains(body, "pass="@)
}

/// The first `n` bytes of a text, or all of it where it is shorter.
pub open spec fn leading_bytes(body: Seq<char>, n: int) -> Seq<char> {
    let b = encode_utf8(body);
    if b.len() <= n {
        body
    } else {
        decode_utf8(b.take(n))
    }
}

/// The value that `pattern` captures in the page, or the empty text.
fn hidden_field(html: &str, pattern: &str) -> (res: String)
    ensures
        res@ == form_field(html@, pattern@),
{
    match first_capture(pattern, html) {
        Some(v) => v,
        None => String::new(),
    }
}

/// The login page as the user needs it to log in by hand: the security
/// image in base64, the hidden `__VIEWSTATE`, `__EVENTVALIDATION` and
/// `__VIEWSTATEGENERATOR` values of the page (empty where missing), and the
/// session cookies.
pub fn captcha_response(html: &str, cookies: Vec<String>, image: &[u8]) -> (res: CaptchaResponse)
    requires
        image@.len() <= usize::MAX / 2,
    ensures
        res.image_base64@ == base64_encoding(image@),
        res.viewstate@ == form_field(html@, viewstate_pattern()),
        res.eventvalidation@ == form_field(html@, eventvalidation_pattern()),
        res.viewstategenerator@ == form_field(html@, viewstategenerator_pattern()),
        res.cookies == cookies,
{
    let viewstate = hidden_field(html, "id=\"__VIEWSTATE\" value=\"([^\"]+)\"");
    let eventvalidation = hidden_field(html, "id=\"__EVENTVALIDATION\" value=\"([^\"]+)\"");
    let viewstategenerator = hidden_field(html, "id=\"__VIEWSTATEGENERATOR\" value=\"([^\"]+)\"");
    let image_base64 = base64_encode(image);
    CaptchaResponse { image_base64, viewstate, eventvalidation, viewstategenerator, cookies }
}

/// The `name=value` part of a `Set-Cookie` header.
pub fn cookie_pair(set_cookie: &str) -> (res: String)
    ensures
        res@ == cookie_pair_of(set_cookie@),
{
    let c = chars_of(set_cookie);
    match char_position(c.as_slice(), ';') {
        Some(k) => {
            proof {
                lemma_index_of_facts(c@, ';');
            }
            let p = slice_chars(c.as_slice(), 0, k);
            assert(p@ =~= c@.take(k as int));
            string_of(p.as_slice())
        },
        None => set_cookie.to_owned(),
    }
}

/// The `Cookie` header that sends the given cookies: joined by `; `.
pub fn cookie_header(cookies: &Vec<String>) -> (res: String)
    ensures
        res@ == join(cookies@.map_values(|s: String| s@), "; "@),
{
    let mut parts: Vec<Vec<char>> = Vec::new();
    let mut i: usize = 0;
    while i < cookies.len()
        invariant
            i <= cookies.len(),
            parts@.len() == i,
            forall|k: int| 0 <= k < i ==> (#[trigger] parts@[k])@ == cookies@[k]@,
        decreases cookies.len() - i,
    {
        parts.push(chars_of(cookies[i].as_str()));
        i = i + 1;
    }
    assert(parts@.map_values(|p: Vec<char>| p@) =~= cookies@.map_values(|s: String| s@));
    let joined = join_chars(&parts, chars_of("; ").as_slice());
    string_of(joined.as_slice())
}

/// The login page's address for the account's server and port.
pub fn login_url(server: &str, port: i32) -> (res: String)
    ensures
        res@ == login_url_for(server@, port),
        res@ == "http://www.istanbuloyun.com/logingame.aspx?server="@ + server@ + ":"@
            + int_decimal(port as int),
{
    let a = concat_chars(
        chars_of("http://www.istanbuloyun.com/logingame.aspx?server=").as_slice(),
        chars_of(server).as_slice(),
    );
    let b = concat_chars(a.as_slice(), chars_of(":").as_slice());
    let c = concat_chars(b.as_slice(), decimal_of(port as i64).as_slice());
    string_of(c.as_slice())
}

/// The login token where the server accepted the login, otherwise the
/// failure message with the first 100 bytes of the reply.  The cut must
/// fall on a character boundary where the reply is refused and longer than
/// that.
pub fn login_outcome(body: &str) -> (res: Result<String, String>)
    requires
        !login_accepted(body@) ==> encode_utf8(body@).len() <= 100 || is_char_boundary(
            encode_utf8(body@),
            100,
        ),
    ensures
        login_accepted(body@) ==> (res matches Ok(t) && t@ == body@),
        !login_accepted(body@) ==> (res matches Err(e) && e@ == "Giriş başarısız: "@ + leading_bytes(
            body@,
            100,
        )),
{
    let b = chars_of(body);
    if has_infix(b.as_slice(), chars_of("user=").as_slice()) && has_infix(
        b.as_slice(),
        chars_of("pass=").as_slice(),
    ) {
        return Ok(body.to_owned());
    }
    let n: usize = body.as_bytes().len();
    if n <= 100 {
        assert(leading_bytes(body@, 100) == body@);
        Err(text_concat("Giriş başarısız: ", body))
    } else {
        let (head, _) = body.split_at(100);
        proof {
            encode_utf8_decode_utf8(head@);
            assert(head@ == decode_utf8(encode_utf8(body@).take(100)));
            assert(encode_utf8(body@).len() > 100);
            assert(leading_bytes(body@, 100) == head@);
        }
        Err(text_concat("Giriş başarısız: ", head))
    }
}

/// The answer to a hardware-id request, given what the id query printed:
/// the id where it printed a usable one, otherwise a failure.
pub fn hwid_response(stdout: &str) -> (res: ApiResponse<String>)
    ensures
        match hwid_in_output(stdout@) {
            Some(id) => res.success && res.error is None && (res.data matches Some(d) && d@ == id),
            None => !res.success && res.data is None && (res.error matches Some(e) && e@
                == "HWID okunamadı"@),
        },
{
    match crate::crypto::hwid_from_output(stdout) {
        Some(id) => ApiResponse::success(id),
        None => ApiResponse::failure("HWID okunamadı".to_owned()),
    }
}

} // verus!
