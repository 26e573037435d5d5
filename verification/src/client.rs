//! What the web client computes around its API calls: the request URL, the
//! CSRF token found in the cookie string, the authentication headers, the
//! single-sign-on links, and the values read from its comma-separated form
//! fields.
use vstd::prelude::*;
use vstd::utf8::encode_utf8;
use crate::numbers::{parse_i64, parse_i64_spec};
use crate::text::{chars_of, string_of};
use crate::tokens::{split_on, split_on_chars, trim_chars, trim_ws};

verus! {

/// `s.trim_end_matches(c)`.
pub open spec fn trim_end_char(s: Seq<char>, c: char) -> Seq<char>
    decreases s.len(),
{
    if s.len() > 0 && s.last() == c {
        trim_end_char(s.drop_last(), c)
    } else {
        s
    }
}

/// `s.trim_start_matches(c)`.
pub open spec fn trim_start_char(s: Seq<char>, c: char) -> Seq<char>
    decreases s.len(),
{
    if s.len() > 0 && s[0] == c {
        trim_start_char(s.drop_first(), c)
    } else {
        s
    }
}

/// The URL of `path` under the API base: exactly one `/` between them.
pub open spec fn api_url_spec(base: Seq<char>, path: Seq<char>) -> Seq<char> {
    trim_end_char(base, '/') + seq!['/'] + trim_start_char(path, '/')
}

proof fn lemma_trim_end_char_take(s: Seq<char>, c: char, j: int)
    requires
        0 <= j <= s.len(),
        forall|k: int| j <= k < s.len() ==> #[trigger] s[k] == c,
    ensures
        trim_end_char(s, c) == trim_end_char(s.take(j), c),
    decreases s.len() - j,
{
    if j < s.len() {
        assert(s.drop_last().take(j) =~= s.take(j));
        lemma_trim_end_char_take(s.drop_last(), c, j);
    } else {
        assert(s.take(j) =~= s);
    }
}

proof fn lemma_trim_start_char_skip(s: Seq<char>, c: char, i: int)
    requires
        0 <= i <= s.len(),
        forall|j: int| 0 <= j < i ==> #[trigger] s[j] == c,
    ensures
        trim_start_char(s, c) == trim_start_char(s.skip(i), c),
    decreases i,
{
    if i > 0 {
        assert(s.skip(1) =~= s.drop_first());
        lemma_trim_start_char_skip(s.drop_first(), c, i - 1);
        assert(s.drop_first().skip(i - 1) =~= s.skip(i));
    } else {
        assert(s.skip(0) =~= s);
    }
}

/// The request URL for `path` under `base`.
pub fn api_url(base: &str, path: &str) -> (url: String)
    ensures
        url@ == api_url_spec(base@, path@),
{
    let b = chars_of(base);
    let p = chars_of(path);
    let mut end: usize = b.len();
    while end > 0 && b[end - 1] == '/'
        invariant
            end <= b.len(),
            forall|k: int| end <= k < b.len() ==> #[trigger] b@[k] == '/',
        decreases end,
    {
        end = end - 1;
    }
    proof {
        lemma_trim_end_char_take(b@, '/', end as int);
        if end > 0 {
            assert(b@.take(end as int).last() == b@[end - 1]);
        }
        assert(trim_end_char(b@.take(end as int), '/') == b@.take(end as int));
    }
    let mut start: usize = 0;
    while start < p.len() && p[start] == '/'
        invariant
            start <= p.len(),
            forall|j: int| 0 <= j < start ==> #[trigger] p@[j] == '/',
        decreases p.len() - start,
    {
        start = start + 1;
    }
    proof {
        lemma_trim_start_char_skip(p@, '/', start as int);
        assert(trim_start_char(p@.skip(start as int), '/') == p@.skip(start as int));
    }
    let mut out: Vec<char> = Vec::new();
    let mut i: usize = 0;
    while i < end
        invariant
            i <= end <= b.len(),
            out@ == b@.take(i as int),
        decreases end - i,
    {
        out.push(b[i]);
        i = i + 1;
        assert(out@ =~= b@.take(i as int));
    }
    out.push('/');
    let mut j: usize = start;
    while j < p.len()
        invariant
            start <= j <= p.len(),
            i == end,
            out@ == b@.take(end as int) + seq!['/'] + p@.subrange(start as int, j as int),
        decreases p.len() - j,
    {
        out.push(p[j]);
        j = j + 1;
        assert(out@ =~= b@.take(end as int) + seq!['/'] + p@.subrange(start as int, j as int));
    }
    assert(p@.subrange(start as int, p.len() as int) =~= p@.skip(start as int));
    string_of(&out)
}

/// The cookie name under which the server hands out the CSRF token.
pub open spec fn csrf_cookie_prefix() -> Seq<char> {
    "XSRF-TOKEN="@
}

/// The value of the first `;`-separated piece that, trimmed, starts with
/// `XSRF-TOKEN=`.
pub open spec fn csrf_in_pieces(pieces: Seq<Seq<char>>) -> Option<Seq<char>>
    decreases pieces.len(),
{
    if pieces.len() == 0 {
        None
    } else {
        let t = trim_ws(pieces[0]);
        let p = csrf_cookie_prefix();
        if p.len() <= t.len() && t.take(p.len() as int) == p {
            Some(t.skip(p.len() as int))
        } else {
            csrf_in_pieces(pieces.drop_first())
        }
    }
}

pub open spec fn csrf_from_cookie_spec(cookie: Seq<char>) -> Option<Seq<char>> {
    csrf_in_pieces(split_on(cookie, ';'))
}

/// The CSRF token in a `document.cookie` string, if there is one.
pub fn csrf_from_cookie(cookie: &str) -> (token: Option<String>)
    ensures
        token matches Some(t) ==> csrf_from_cookie_spec(cookie@) == Some(t@),
        token is None ==> csrf_from_cookie_spec(cookie@) is None,
{
    let c = chars_of(cookie);
    let pieces = split_on_chars(&c, ';');
    let ghost views = pieces@.map_values(|t: Vec<char>| t@);
    let prefix = chars_of("XSRF-TOKEN=");
    let mut i: usize = 0;
    assert(views.skip(0) =~= views);
    while i < pieces.len()
        invariant
            i <= pieces.len(),
            views == pieces@.map_values(|t: Vec<char>| t@),
            views == split_on(c@, ';'),
            c@ == cookie@,
            prefix@ == csrf_cookie_prefix(),
            csrf_in_pieces(views.skip(i as int)) == csrf_in_pieces(views),
        decreases pieces.len() - i,
    {
        assert(views.skip(i as int).drop_first() =~= views.skip(i + 1));
        assert(views.skip(i as int)[0] == pieces@[i as int]@);
        let t = trim_chars(&pieces[i]);
        if prefix.len() <= t.len() {
            let mut k: usize = 0;
            while k < prefix.len() && t[k] == prefix[k]
                invariant
                    k <= prefix.len() <= t.len(),
                    forall|q: int| 0 <= q < k ==> t@[q] == prefix@[q],
                decreases prefix.len() - k,
            {
                k = k + 1;
            }
            if k == prefix.len() {
                assert(t@.take(prefix.len() as int) =~= prefix@);
                let mut rest: Vec<char> = Vec::new();
                let mut m: usize = prefix.len();
                while m < t.len()
                    invariant
                        prefix.len() <= m <= t.len(),
                        rest@ == t@.subrange(prefix.len() as int, m as int),
                    decreases t.len() - m,
                {
                    rest.push(t[m]);
                    m = m + 1;
                    assert(rest@ =~= t@.subrange(prefix.len() as int, m as int));
                }
                assert(rest@ =~= t@.skip(prefix.len() as int));
                assert(trim_ws(views.skip(i as int)[0]) == t@);
                assert(csrf_in_pieces(views.skip(i as int)) == Some(t@.skip(prefix.len() as int)));
                return Some(string_of(&rest));
            } else {
                assert(t@.take(prefix.len() as int)[k as int] != prefix@[k as int]);
            }
        }
        i = i + 1;
    }
    assert(views.skip(i as int) =~= Seq::<Seq<char>>::empty());
    None
}

/// The headers that authenticate an API request.
#[derive(Clone, Debug)]
pub struct AuthHeaders {
    /// The `Authorization` value, when a token is held.
    pub authorization: Option<String>,
    /// The `X-CSRF-TOKEN` value; when present the request also carries
    /// credentials.
    pub csrf: Option<String>,
}

/// `Bearer <token>` when the token is not blank; the CSRF value given, or
/// when that is blank the one from the cookie, when it is not blank.
pub fn auth_headers(token: &str, csrf: &str, cookie_csrf: Option<String>) -> (h: AuthHeaders)
    ensures
        trim_ws(token@).len() == 0 ==> h.authorization is None,
        trim_ws(token@).len() > 0 ==> (h.authorization matches Some(a) && a@ == "Bearer "@ + token@),
        ({
            let chosen: Seq<char> = if trim_ws(csrf@).len() == 0 {
                match cookie_csrf {
                    Some(v) => v@,
                    None => Seq::<char>::empty(),
                }
            } else {
                csrf@
            };
            &&& trim_ws(chosen).len() == 0 ==> h.csrf is None
            &&& trim_ws(chosen).len() > 0 ==> (h.csrf matches Some(v) && v@ == chosen)
        }),
{
    let token_chars = chars_of(token);
    let authorization = if trim_chars(&token_chars).len() == 0 {
        None
    } else {
        let mut value = String::from_str("Bearer ");
        value.append(token);
        Some(value)
    };
    let csrf_chars = chars_of(csrf);
    let chosen: Vec<char> = if trim_chars(&csrf_chars).len() == 0 {
        match cookie_csrf {
            Some(v) => chars_of(v.as_str()),
            None => Vec::new(),
        }
    } else {
        csrf_chars
    };
    let csrf_value = if trim_chars(&chosen).len() == 0 {
        None
    } else {
        Some(string_of(&chosen))
    };
    AuthHeaders { authorization, csrf: csrf_value }
}

// ---------------------------------------------------------------------------
// The stored login
// ---------------------------------------------------------------------------

/// Whether the stored login is checked at start-up: only when a token is held.
pub fn needs_login_check(token: &str) -> (r: bool)
    ensures
        r == (trim_ws(token@).len() > 0),
{
    trim_chars(&chars_of(token)).len() > 0
}

/// What the client holds after checking its stored login.
#[derive(Clone, Debug)]
pub struct LoginState {
    /// The token to hold (empty once the login is found expired).
    pub token: String,
    /// The signed-in user's name (empty once the login is found expired).
    pub user_name: String,
    /// The CSRF token to hold from now on, when the check sets one.
    pub csrf: Option<String>,
    /// The status line shown.
    pub status: String,
    /// Whether the stored token and user name stay (and the name is
    /// stored); when not, both are cleared from storage.
    pub keep_stored: bool,
}

/// The client's login after asking the server who holds `token`:
/// `checked` is the user's name, or the error the request ended with.
/// A known user keeps the token, takes the CSRF token from the cookie (empty
/// when there is none) and is shown as verified; otherwise the stored login
/// is cleared and the status says it has expired, with the error.
pub fn login_after_check(token: &str, checked: Result<String, String>, cookie_csrf: Option<String>) -> (s: LoginState)
    ensures
        checked matches Ok(name) ==> {
            &&& s.token@ == token@
            &&& s.user_name@ == name@
            &&& s.csrf matches Some(c) && c@ == (match cookie_csrf {
                Some(v) => v@,
                None => Seq::<char>::empty(),
            })
            &&& s.status@ == "登录已验证"@
            &&& s.keep_stored
        },
        checked matches Err(e) ==> {
            &&& s.token@ == Seq::<char>::empty()
            &&& s.user_name@ == Seq::<char>::empty()
            &&& s.csrf is None
            &&& s.status@ == "登录已失效："@ + e@
            &&& !s.keep_stored
        },
{
    match checked {
        Ok(name) => {
            let csrf = match cookie_csrf {
                Some(v) => v,
                None => String::new(),
            };
            LoginState {
                token: String::from_str(token),
                user_name: name,
                csrf: Some(csrf),
                status: String::from_str("登录已验证"),
                keep_stored: true,
            }
        },
        Err(e) => {
            let mut status = String::from_str("登录已失效：");
            status.append(e.as_str());
            LoginState {
                token: String::new(),
                user_name: String::new(),
                csrf: None,
                status,
                keep_stored: false,
            }
        },
    }
}

// ---------------------------------------------------------------------------
// URL encoding and links
// ---------------------------------------------------------------------------

/// The bytes `urlencoding` leaves as they are.
pub open spec fn url_unreserved(b: u8) -> bool {
    ||| (48 <= b && b <= 57)
    ||| (65 <= b && b <= 90)
    ||| (97 <= b && b <= 122)
    ||| b == 45
    ||| b == 46
    ||| b == 95
    ||| b == 126
}

/// An upper-case hexadecimal digit.
pub open spec fn hex_upper(d: int) -> char {
    if d < 10 {
        (48 + d) as char
    } else {
        (55 + d) as char
    }
}

/// Percent-encoding of bytes: unreserved bytes stay, every other byte `b`
/// becomes `%` and its two upper-case hex digits.
pub open spec fn percent_encode_bytes(bytes: Seq<u8>) -> Seq<char>
    decreases bytes.len(),
{
    if bytes.len() == 0 {
        seq![]
    } else {
        let b = bytes[0];
        (if url_unreserved(b) {
            seq![b as char]
        } else {
            seq!['%', hex_upper((b / 16) as int), hex_upper((b % 16) as int)]
        }) + percent_encode_bytes(bytes.drop_first())
    }
}

/// The URL encoding of a text: its UTF-8 bytes, percent-encoded.
pub open spec fn url_encode_spec(s: Seq<char>) -> Seq<char> {
    percent_encode_bytes(encode_utf8(s))
}

/// `urlencoding::encode`. Its documentation and source: every byte of the
/// UTF-8 encoding except ASCII letters, digits and `-` `.` `_` `~` is
/// written as `%` followed by two upper-case hex digits; the contract
/// states exactly that.
#[verifier::external_body]
fn url_encode(s: &str) -> (out: String)
    ensures
        out@ == url_encode_spec(s@),
{
    urlencoding::encode(s).into_owned()
}

/// The link into a site behind single sign-on: the site itself when there
/// is no token, otherwise its `sso` entry with the token and the site as the
/// page to return to, both URL-encoded. The token is taken without
/// surrounding white space.
pub open spec fn sso_link_spec(base: Seq<char>, token: Seq<char>) -> Seq<char> {
    let t = trim_ws(token);
    if t.len() == 0 {
        base
    } else {
        base + "sso?token="@ + url_encode_spec(t) + "&next="@ + url_encode_spec(base)
    }
}

pub fn sso_link(base: &str, token: &str) -> (link: String)
    ensures
        link@ == sso_link_spec(base@, token@),
{
    let token_chars = chars_of(token);
    let trimmed = trim_chars(&token_chars);
    if trimmed.len() == 0 {
        return String::from_str(base);
    }
    let trimmed_string = string_of(&trimmed);
    let mut link = String::from_str(base);
    link.append("sso?token=");
    let encoded_token = url_encode(trimmed_string.as_str());
    link.append(encoded_token.as_str());
    link.append("&next=");
    let encoded_base = url_encode(base);
    link.append(encoded_base.as_str());
    link
}

/// The path that lists members for the admin page, searching for the query
/// (without surrounding white space) when it is not blank.
pub open spec fn admin_users_path_spec(query: Seq<char>) -> Seq<char> {
    let q = trim_ws(query);
    if q.len() == 0 {
        "/admin/users?limit=200"@
    } else {
        "/admin/users?limit=200"@ + "&q="@ + url_encode_spec(q)
    }
}

pub fn admin_users_path(query: &str) -> (path: String)
    ensures
        path@ == admin_users_path_spec(query@),
{
    let mut path = String::from_str("/admin/users?limit=200");
    let q = trim_chars(&chars_of(query));
    if q.len() > 0 {
        path.append("&q=");
        let q_string = string_of(&q);
        let encoded = url_encode(q_string.as_str());
        path.append(encoded.as_str());
    }
    path
}

// ---------------------------------------------------------------------------
// Form fields
// ---------------------------------------------------------------------------

/// The non-blank entries of a comma-separated list, each trimmed.
pub open spec fn trimmed_entries(pieces: Seq<Seq<char>>) -> Seq<Seq<char>>
    decreases pieces.len(),
{
    if pieces.len() == 0 {
        seq![]
    } else {
        let rest = trimmed_entries(pieces.drop_last());
        let t = trim_ws(pieces.last());
        if t.len() > 0 {
            rest.push(t)
        } else {
            rest
        }
    }
}

/// The entries of a comma-separated list, such as message recipients or
/// permission names: split on `,`, trimmed, blanks dropped.
pub fn comma_list(raw: &str) -> (entries: Vec<String>)
    ensures
        entries@.map_values(|e: String| e@) == trimmed_entries(split_on(raw@, ',')),
{
    let pieces = split_on_chars(&chars_of(raw), ',');
    let ghost views = pieces@.map_values(|t: Vec<char>| t@);
    let mut out: Vec<String> = Vec::new();
    let mut i: usize = 0;
    assert(views.take(0) =~= Seq::<Seq<char>>::empty());
    while i < pieces.len()
        invariant
            i <= pieces.len(),
            views == pieces@.map_values(|t: Vec<char>| t@),
            out@.map_values(|e: String| e@) == trimmed_entries(views.take(i as int)),
        decreases pieces.len() - i,
    {
        let ghost before = out@.map_values(|e: String| e@);
        assert(views.take(i + 1).drop_last() =~= views.take(i as int));
        assert(views.take(i + 1).last() == pieces@[i as int]@);
        let t = trim_chars(&pieces[i]);
        if t.len() > 0 {
            out.push(string_of(&t));
            assert(out@.map_values(|e: String| e@) =~= before.push(t@));
        }
        i = i + 1;
    }
    assert(views.take(pieces.len() as int) =~= views);
    out
}

/// The entries of a comma-separated list that, trimmed, parse as `i64`.
pub open spec fn parsed_entries(pieces: Seq<Seq<char>>) -> Seq<i64>
    decreases pieces.len(),
{
    if pieces.len() == 0 {
        seq![]
    } else {
        let rest = parsed_entries(pieces.drop_last());
        match parse_i64_spec(trim_ws(pieces.last())) {
            Some(v) => rest.push(v),
            None => rest,
        }
    }
}

/// The group ids of a comma-separated list; entries that are not numbers
/// are skipped.
pub fn id_list(raw: &str) -> (ids: Vec<i64>)
    ensures
        ids@ == parsed_entries(split_on(raw@, ',')),
{
    let chars = chars_of(raw);
    let pieces = split_on_chars(&chars, ',');
    let ghost views = pieces@.map_values(|t: Vec<char>| t@);
    let mut out: Vec<i64> = Vec::new();
    let mut i: usize = 0;
    assert(views.take(0) =~= Seq::<Seq<char>>::empty());
    while i < pieces.len()
        invariant
            i <= pieces.len(),
            views == pieces@.map_values(|t: Vec<char>| t@),
            out@ == parsed_entries(views.take(i as int)),
        decreases pieces.len() - i,
    {
        assert(views.take(i + 1).drop_last() =~= views.take(i as int));
        assert(views.take(i + 1).last() == pieces@[i as int]@);
        let t = trim_chars(&pieces[i]);
        match parse_i64(&t) {
            Some(v) => {
                out.push(v);
            },
            None => {},
        }
        i = i + 1;
    }
    assert(views.take(pieces.len() as int) =~= views);
    out
}

/// A number field: the trimmed text as an `i64`, or zero.
pub fn number_or_zero(raw: &str) -> (n: i64)
    ensures
        n == match parse_i64_spec(trim_ws(raw@)) {
            Some(v) => v,
            None => 0,
        },
{
    match parse_i64(&trim_chars(&chars_of(raw))) {
        Some(v) => v,
        None => 0,
    }
}

} // verus!
