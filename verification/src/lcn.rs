//! What the session with the actuator is made of: its addresses, the
//! project name and the login form.

use vstd::prelude::*;
use vstd::string::*;

verus! {

/// The addresses of the actuator.
#[derive(Debug)]
pub struct Urls {
    pub base: String,
    pub login: String,
    pub home: String,
    pub command: String,
}

/// The addresses of the actuator at `addr`, for the project `proj`.
pub fn get_urls(addr: &str, proj: &str) -> (urls: Urls)
    ensures
        urls.base@ == "http://"@ + addr@,
        urls.login@ == "http://"@ + addr@ + "//LCNGVS/visual.aspx"@,
        urls.home@ == "http://"@ + addr@ + "/lcngvs/control.aspx?ui=Mobil&proj="@ + proj@,
        urls.command@ == "http://"@ + addr@ + "/lcngvs/renderer3.aspx/AjaxButtonClicked"@,
{
    let base = String::from_str("http://").concat(addr);
    let login = String::from_str("http://").concat(addr).concat("//LCNGVS/visual.aspx");
    let home = String::from_str("http://").concat(addr).concat(
        "/lcngvs/control.aspx?ui=Mobil&proj=",
    ).concat(proj);
    let command = String::from_str("http://").concat(addr).concat(
        "/lcngvs/renderer3.aspx/AjaxButtonClicked",
    );
    Urls { base, login, home, command }
}

/// The character of a project name that stands for a character of a user
/// name: a blank for a hyphen, a full stop for a slash, the character itself
/// otherwise.
pub open spec fn project_char(c: char) -> char {
    if c == '-' {
        ' '
    } else if c == '/' {
        '.'
    } else {
        c
    }
}

/// `String::push` appends the character to the end of the string.
pub assume_specification[ String::push ](s: &mut String, ch: char)
    ensures
        final(s)@ == old(s)@.push(ch),
;

/// The project that a user name stands for.
pub fn get_project_from_uname(uname: &str) -> (project: String)
    ensures
        project@ == uname@.map_values(|c: char| project_char(c)),
{
    let mut project = String::new();
    let len = uname.unicode_len();
    let mut i: usize = 0;
    while i < len
        invariant
            len == uname@.len(),
            i <= len,
            project@ == uname@.take(i as int).map_values(|c: char| project_char(c)),
        decreases len - i,
    {
        let c = uname.get_char(i);
        let mapped = if c == '-' {
            ' '
        } else if c == '/' {
            '.'
        } else {
            c
        };
        project.push(mapped);
        assert(project@ =~= uname@.take(i + 1).map_values(|c: char| project_char(c)));
        i += 1;
    }
    assert(uname@.take(len as int) =~= uname@);
    project
}

/// The state that the login page hands to the form.
pub const VIEW_STATE: &'static str =
    "HTCBTEyjFPDrfK2UzAUIC1ExrzGGqi1qcKNY4JqXqfHGyt2E9EZPboWkLvEGv1roo03CtrXZWYz19Jzw5oW9d3B2lbgzeJCj4Oe3NlFwqFIwpQ6hInOv94eSjLfnoR2RSie3JvKHfOgOMDPOgdNqrUfjCUtRvWaacpLcvXlCDu1coapJMhyUW+xeuig+2pGWEAEeuTB+tLFGMf+eVLrFVeAEGnv+4HPfEwFtRV3HL30QJRPkm/CeGp9ysHq6hBBespag/+JI0Y7M9U+UCf/BOZjQtYTw7QLocScQkEb4tiQCD7EI4TuKqD140g2PoIdL1MTWYBjWZhaYwem0BUK/y18TUQPaSX5sx6Cgk7wPYClntGyZ4Kfh9fT1TOREUaME/XW0sbmq19fOww+QLjOBR2Ov3RGygOqAaHnQq7+0vueKCK7ukb4X2XFwUqMBEWguzI833/3ruZM+x/giJKPJ8fNKzhI+q2smWHSh9NV56gPIyrztAyxLXDUu7n+fDzAztw5H+jlaCnxiTQlPNayXWlocuevHG+TWD8NlCmQGIj2j+DsdsNQLwOtTD/N8xOjYTCg8+A==";

/// The name of what generated the state of the login page.
pub const VIEW_STATE_GENERATOR: &'static str = "4E5E161E";

/// The token by which the login page validates the form.
pub const EVENT_VALIDATION: &'static str =
    "2U9GlFW/H7C7A1WIYFY6UbCt0U+zNBytu2lITF1Dd/HOOOliLocITad04fcRTQIU/4cR7309pI8uwtFZDCqqSlz2+yC0f1F16ktkX56VoqZsA0PFldN8gIN+U3U1kKwLfAULG7z1jS/lyJFV5IawFmmrqXCutjBEAV3Q+3+/jEazHU7s20mcOPlcvKKGwtLb6UR6Uujxr4i1fkvQbiP9l5b81Dw=";

/// The fields of the login form, in order, each with its value.
pub open spec fn login_form(user_name: Seq<char>, password: Seq<char>) -> Seq<
    (Seq<char>, Seq<char>),
> {
    seq![
        ("__LASTFOCUS"@, ""@),
        ("__EVENTTARGET"@, ""@),
        ("__EVENTARGUMENT"@, ""@),
        ("__VIEWSTATE"@, VIEW_STATE@),
        ("__VIEWSTATEGENERATOR"@, VIEW_STATE_GENERATOR@),
        ("__EVENTVALIDATION"@, EVENT_VALIDATION@),
        ("loginView$UserName"@, user_name),
        ("loginView$Password"@, password),
        ("loginView$LoginButton"@, "Log in"@),
    ]
}

/// The views of the fields of a form.
pub open spec fn form_view(form: Seq<(String, String)>) -> Seq<(Seq<char>, Seq<char>)> {
    form.map_values(|field: (String, String)| (field.0@, field.1@))
}

/// The login form filled in for the user.
pub fn get_login_payload(user_name: String, password: String) -> (form: Vec<(String, String)>)
    ensures
        form_view(form@) == login_form(user_name@, password@),
{
    let mut form: Vec<(String, String)> = Vec::new();
    form.push((String::from_str("__LASTFOCUS"), String::from_str("")));
    form.push((String::from_str("__EVENTTARGET"), String::from_str("")));
    form.push((String::from_str("__EVENTARGUMENT"), String::from_str("")));
    form.push((String::from_str("__VIEWSTATE"), String::from_str(VIEW_STATE)));
    form.push((String::from_str("__VIEWSTATEGENERATOR"), String::from_str(VIEW_STATE_GENERATOR)));
    form.push((String::from_str("__EVENTVALIDATION"), String::from_str(EVENT_VALIDATION)));
    form.push((String::from_str("loginView$UserName"), user_name));
    form.push((String::from_str("loginView$Password"), password));
    form.push((String::from_str("loginView$LoginButton"), String::from_str("Log in")));
    assert(form_view(form@) =~= login_form(user_name@, password@));
    form
}

/// Whether `word` stands in `text` at position `i`.
pub open spec fn text_at(text: Seq<char>, word: Seq<char>, i: int) -> bool {
    &&& 0 <= i
    &&& i + word.len() <= text.len()
    &&& forall|k: int| 0 <= k < word.len() ==> text[i + k] == #[trigger] word[k]
}

/// Whether `word` stands anywhere in `text`.
pub open spec fn contains_text(text: Seq<char>, word: Seq<char>) -> bool {
    exists|i: int| text_at(text, word, i)
}

/// What separates one cookie from the next.
pub open spec fn cookie_separator() -> Seq<char> {
    seq![';', ' ']
}

/// The name by which the cookie that authenticates is known.
pub open spec fn auth_cookie_name() -> Seq<char> {
    "LCN-GVS-Auth"@
}

/// Where the cookie that starts at `from` ends: at the next separator, or
/// at the end of the text.
pub open spec fn cookie_end(text: Seq<char>, from: int) -> int
    decreases text.len() - from,
{
    if from < 0 || from >= text.len() {
        text.len() as int
    } else if text_at(text, cookie_separator(), from) {
        from
    } else {
        cookie_end(text, from + 1)
    }
}

/// The first cookie that starts at `from` or later and holds the name of
/// the cookie that authenticates.
pub open spec fn auth_cookie_from(text: Seq<char>, from: int) -> Option<Seq<char>>
    decreases text.len() - from,
{
    let end = cookie_end(text, from);
    if from < 0 || end < from || end > text.len() {
        None
    } else if contains_text(text.subrange(from, end), auth_cookie_name()) {
        Some(text.subrange(from, end))
    } else if end + 2 > text.len() {
        None
    } else {
        auth_cookie_from(text, end + 2)
    }
}

/// The characters of a text, one by one.
fn to_chars(text: &str) -> (chars: Vec<char>)
    ensures
        chars@ == text@,
{
    let len = text.unicode_len();
    let mut chars: Vec<char> = Vec::new();
    let mut i: usize = 0;
    while i < len
        invariant
            len == text@.len(),
            i <= len,
            chars@ == text@.take(i as int),
        decreases len - i,
    {
        chars.push(text.get_char(i));
        assert(chars@ =~= text@.take(i + 1));
        i += 1;
    }
    assert(text@.take(len as int) =~= text@);
    chars
}

/// Whether `word` stands at position `at` of the part of `text` before
/// `end`.
fn stands_at(text: &Vec<char>, end: usize, word: &Vec<char>, at: usize) -> (b: bool)
    requires
        at <= end <= text.len(),
    ensures
        b == text_at(text@.subrange(0, end as int), word@, at as int),
{
    if word.len() > end - at {
        return false;
    }
    let ghost part = text@.subrange(0, end as int);
    let mut k: usize = 0;
    while k < word.len()
        invariant
            at + word.len() <= end <= text.len(),
            part == text@.subrange(0, end as int),
            k <= word.len(),
            forall|j: int| 0 <= j < k ==> part[at + j] == #[trigger] word@[j],
        decreases word.len() - k,
    {
        if text[at + k] != word[k] {
            assert(part[at + k] != word@[k as int]);
            return false;
        }
        k += 1;
    }
    true
}

/// The cookie that authenticates, among cookies separated by `"; "`: the
/// first that holds the name `LCN-GVS-Auth`.
pub fn get_auth_cookie(cookies: &str) -> (cookie: Option<String>)
    ensures
        match cookie {
            Some(c) => auth_cookie_from(cookies@, 0) == Some(c@),
            None => auth_cookie_from(cookies@, 0) is None,
        },
{
    let text = to_chars(cookies);
    let separator = to_chars("; ");
    let name = to_chars("LCN-GVS-Auth");
    proof {
        reveal_strlit("; ");
        assert(separator@ =~= cookie_separator());
    }
    let len = text.len();
    let mut from: usize = 0;
    loop
        invariant
            text@ == cookies@,
            separator@ == cookie_separator(),
            name@ == auth_cookie_name(),
            len == text.len(),
            from <= len,
            auth_cookie_from(cookies@, 0) == auth_cookie_from(cookies@, from as int),
        decreases len - from,
    {
        let mut end: usize = from;
        while end < len && !stands_at(&text, len, &separator, end)
            invariant
                text@ == cookies@,
                separator@ == cookie_separator(),
                len == text.len(),
                from <= end <= len,
                cookie_end(text@, from as int) == cookie_end(text@, end as int),
            decreases len - end,
        {
            assert(text@.subrange(0, len as int) =~= text@);
            end += 1;
        }
        assert(text@.subrange(0, len as int) =~= text@);
        assert(cookie_end(text@, from as int) == end);
        let ghost piece = text@.subrange(from as int, end as int);
        let mut at: usize = from;
        let mut found = false;
        while !found && at < end
            invariant
                name@ == auth_cookie_name(),
                from <= at <= end <= len,
                len == text.len(),
                piece == text@.subrange(from as int, end as int),
                forall|j: int| 0 <= j < at - from ==> !text_at(piece, auth_cookie_name(), j),
                found ==> text_at(piece, auth_cookie_name(), at - from),
            decreases end - at + (if found { 0int } else { 1int }),
        {
            let here = stands_at(&text, end, &name, at);
            proof {
                let head = text@.subrange(0, end as int);
                assert(forall|k: int| 0 <= k < end - from ==> piece[k] == head[from + k]);
                assert(text_at(head, auth_cookie_name(), at as int) == text_at(
                    piece,
                    auth_cookie_name(),
                    at - from,
                ));
            }
            if here {
                found = true;
            } else {
                at += 1;
            }
        }
        if found {
            assert(contains_text(piece, auth_cookie_name()));
            let mut cookie = String::new();
            let mut k: usize = from;
            while k < end
                invariant
                    from <= k <= end <= len,
                    len == text.len(),
                    cookie@ == text@.subrange(from as int, k as int),
                decreases end - k,
            {
                cookie.push(text[k]);
                assert(cookie@ =~= text@.subrange(from as int, k + 1));
                k += 1;
            }
            return Some(cookie);
        }
        proof {
            reveal_strlit("LCN-GVS-Auth");
            assert(auth_cookie_name().len() == 12);
            assert(!contains_text(piece, auth_cookie_name())) by {
                if contains_text(piece, auth_cookie_name()) {
                    let j = choose|j: int| text_at(piece, auth_cookie_name(), j);
                    assert(0 <= j < end - from);
                }
            }
        }
        if end >= len {
            return None;
        }
        from = end + 2;
    }
}

} // verus!
