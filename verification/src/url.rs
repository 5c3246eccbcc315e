//! The minimal URL parser: `scheme "://" authority [":" port] [path]`, where
//! the authority is four dot-separated decimal octets or an opaque hostname
//! token, the port is a run of decimal digits that fits sixteen bits, and the
//! path is whatever remains. A dotted quad is attempted first; if it does not
//! fully match, the authority is an opaque hostname. Parsing is total and
//! deterministic; no percent-decoding, query strings or IPv6 literals.

use vstd::prelude::*;
use crate::text::{dec_value, dec_digits, is_digit_char, push_decimal};

verus! {

/// Whether a character is an ASCII letter or digit.
pub open spec fn is_alnum_char(c: char) -> bool {
    (48 <= c as u32 <= 57) || (65 <= c as u32 <= 90) || (97 <= c as u32 <= 122)
}

/// Whether a character may stand inside an authority token: anything but the
/// separators that end it.
pub open spec fn is_auth_char(c: char) -> bool {
    c != '/' && c != ':'
}

/// How many leading characters of a string satisfy a predicate.
pub open spec fn count_while(s: Seq<char>, p: spec_fn(char) -> bool) -> int
    decreases s.len(),
{
    if s.len() == 0 || !p(s.first()) {
        0
    } else {
        1 + count_while(s.drop_first(), p)
    }
}

/// The basic shape of `count_while`: it is a valid index bound, everything
/// before it satisfies the predicate, and the character at it (if any) does
/// not.
pub proof fn lemma_count_while_props(s: Seq<char>, p: spec_fn(char) -> bool)
    ensures
        0 <= count_while(s, p) <= s.len(),
        forall|i: int| 0 <= i < count_while(s, p) ==> p(#[trigger] s[i]),
        count_while(s, p) < s.len() ==> !p(s[count_while(s, p)]),
    decreases s.len(),
{
    if s.len() != 0 && p(s.first()) {
        lemma_count_while_props(s.drop_first(), p);
        assert(forall|i: int|
            0 <= i < s.drop_first().len() ==> #[trigger] s.drop_first()[i] == s[i + 1]);
        assert forall|i: int| 0 <= i < count_while(s, p) implies p(#[trigger] s[i]) by {
            if i == 0 {
                assert(p(s.first()));
            } else {
                assert(p(s.drop_first()[i - 1]));
            }
        }
    }
}

/// `count_while` is determined by its shape: any index with that shape is it.
pub proof fn lemma_count_while_determined(s: Seq<char>, p: spec_fn(char) -> bool, k: int)
    requires
        0 <= k <= s.len(),
        forall|i: int| 0 <= i < k ==> p(#[trigger] s[i]),
        k < s.len() ==> !p(s[k]),
    ensures
        count_while(s, p) == k,
    decreases s.len(),
{
    if s.len() == 0 {
    } else if k == 0 {
        assert(!p(s.first()));
    } else {
        assert(p(s.first()));
        assert(forall|i: int|
            0 <= i < s.drop_first().len() ==> #[trigger] s.drop_first()[i] == s[i + 1]);
        lemma_count_while_determined(s.drop_first(), p, k - 1);
    }
}

/// The predicate of scheme characters, as a value.
pub open spec fn alnum_pred() -> spec_fn(char) -> bool {
    |c: char| is_alnum_char(c)
}

/// The predicate of authority characters, as a value.
pub open spec fn auth_pred() -> spec_fn(char) -> bool {
    |c: char| is_auth_char(c)
}

/// The predicate of digit characters, as a value.
pub open spec fn digit_pred() -> spec_fn(char) -> bool {
    |c: char| is_digit_char(c)
}

/// The length of the leading run of decimal digits.
pub open spec fn count_digits(s: Seq<char>) -> int {
    count_while(s, digit_pred())
}

/// The authority, decomposed: an opaque hostname, or a literal IPv4 address
/// as four octets.
#[derive(Debug, Clone)]
pub enum Authority {
    Hostname(String),
    Ip(u8, u8, u8, u8),
}

/// The mathematical content of an authority.
pub enum AuthorityView {
    Hostname(Seq<char>),
    Ip(u8, u8, u8, u8),
}

impl View for Authority {
    type V = AuthorityView;

    open spec fn view(&self) -> AuthorityView {
        match self {
            Authority::Hostname(h) => AuthorityView::Hostname(h@),
            Authority::Ip(a, b, c, d) => AuthorityView::Ip(*a, *b, *c, *d),
        }
    }
}

/// A parsed URL: scheme, authority, optional path (with its leading
/// separator), optional port. Produced once by parsing; immutable.
#[derive(Debug, Clone)]
pub struct Url {
    pub scheme: String,
    pub authority: Authority,
    pub path: Option<String>,
    pub port: Option<u16>,
}

/// The mathematical content of a URL.
pub struct UrlView {
    pub scheme: Seq<char>,
    pub authority: AuthorityView,
    pub path: Option<Seq<char>>,
    pub port: Option<u16>,
}

impl View for Url {
    type V = UrlView;

    open spec fn view(&self) -> UrlView {
        UrlView {
            scheme: self.scheme@,
            authority: self.authority@,
            path: match self.path {
                Some(ref p) => Some(p@),
                None => None,
            },
            port: self.port,
        }
    }
}

/// The four octets a token spells as a dotted quad, if it wholly is one:
/// four nonempty digit runs, separated by single dots, each with a value of
/// at most 255.
pub open spec fn quad_of(a: Seq<char>) -> Option<(u8, u8, u8, u8)> {
    let l1 = count_digits(a);
    if l1 == 0 || l1 >= a.len() || a[l1] != '.' {
        None
    } else {
        let p2 = l1 + 1;
        let l2 = count_digits(a.skip(p2));
        if l2 == 0 || p2 + l2 >= a.len() || a[p2 + l2] != '.' {
            None
        } else {
            let p3 = p2 + l2 + 1;
            let l3 = count_digits(a.skip(p3));
            if l3 == 0 || p3 + l3 >= a.len() || a[p3 + l3] != '.' {
                None
            } else {
                let p4 = p3 + l3 + 1;
                let l4 = count_digits(a.skip(p4));
                if l4 == 0 || p4 + l4 != a.len() {
                    None
                } else {
                    let v1 = dec_value(a.subrange(0, l1));
                    let v2 = dec_value(a.subrange(p2, p2 + l2));
                    let v3 = dec_value(a.subrange(p3, p3 + l3));
                    let v4 = dec_value(a.subrange(p4, p4 + l4));
                    if v1 <= 255 && v2 <= 255 && v3 <= 255 && v4 <= 255 {
                        Some((v1 as u8, v2 as u8, v3 as u8, v4 as u8))
                    } else {
                        None
                    }
                }
            }
        }
    }
}

/// What a nonempty authority token decomposes to: the dotted quad if it
/// wholly is one, else the token as an opaque hostname.
pub open spec fn authority_of(a: Seq<char>) -> AuthorityView {
    match quad_of(a) {
        Some(q) => AuthorityView::Ip(q.0, q.1, q.2, q.3),
        None => AuthorityView::Hostname(a),
    }
}

/// What a URL string decomposes to, if it matches the grammar: a nonempty
/// alphanumeric scheme, `://`, a nonempty authority token ended by `/`, `:`
/// or the end, then optionally `:` and a digit run that fits sixteen bits as
/// the port, then whatever remains (nonempty) as the path.
pub open spec fn url_of(s: Seq<char>) -> Option<UrlView> {
    let k = count_while(s, alnum_pred());
    if k == 0 || k + 3 > s.len() || s[k] != ':' || s[k + 1] != '/' || s[k + 2] != '/' {
        None
    } else {
        let a0 = k + 3;
        let al = count_while(s.skip(a0), auth_pred());
        if al == 0 {
            None
        } else {
            let ae = a0 + al;
            let auth = authority_of(s.subrange(a0, ae));
            let dl = count_digits(s.skip(ae + 1));
            if ae < s.len() && s[ae] == ':' && dl > 0 && dec_value(
                s.subrange(ae + 1, ae + 1 + dl),
            ) <= 65535 {
                let pe = ae + 1 + dl;
                Some(
                    UrlView {
                        scheme: s.take(k),
                        authority: auth,
                        port: Some(dec_value(s.subrange(ae + 1, pe)) as u16),
                        path: if pe < s.len() {
                            Some(s.skip(pe))
                        } else {
                            None
                        },
                    },
                )
            } else {
                Some(
                    UrlView {
                        scheme: s.take(k),
                        authority: auth,
                        port: None,
                        path: if ae < s.len() {
                            Some(s.skip(ae))
                        } else {
                            None
                        },
                    },
                )
            }
        }
    }
}

/// Scans the run of scheme characters from a position, returning where it
/// ends.
fn scan_alnum(s: &str, from: usize) -> (r: usize)
    requires
        from <= s@.len(),
    ensures
        r - from == count_while(s@.skip(from as int), alnum_pred()),
        from <= r <= s@.len(),
{
    let n = s.unicode_len();
    let mut k: usize = from;
    loop
        invariant
            from <= k <= n,
            n == s@.len(),
            forall|i: int| from <= i < k ==> is_alnum_char(#[trigger] s@[i]),
        ensures
            from <= k <= n,
            forall|i: int| from <= i < k ==> is_alnum_char(#[trigger] s@[i]),
            k < n ==> !is_alnum_char(s@[k as int]),
        decreases n - k,
    {
        if k >= n {
            break;
        }
        let c = s.get_char(k) as u32;
        if !((48 <= c && c <= 57) || (65 <= c && c <= 90) || (97 <= c && c <= 122)) {
            break;
        }
        k = k + 1;
    }
    proof {
        let t = s@.skip(from as int);
        assert(forall|i: int| 0 <= i < t.len() ==> #[trigger] t[i] == s@[from + i]);
        lemma_count_while_determined(t, alnum_pred(), k - from);
    }
    k
}

/// Scans the run of authority characters from a position, returning where it
/// ends.
fn scan_auth(s: &str, from: usize) -> (r: usize)
    requires
        from <= s@.len(),
    ensures
        r - from == count_while(s@.skip(from as int), auth_pred()),
        from <= r <= s@.len(),
{
    let n = s.unicode_len();
    let mut k: usize = from;
    loop
        invariant
            from <= k <= n,
            n == s@.len(),
            forall|i: int| from <= i < k ==> is_auth_char(#[trigger] s@[i]),
        ensures
            from <= k <= n,
            forall|i: int| from <= i < k ==> is_auth_char(#[trigger] s@[i]),
            k < n ==> !is_auth_char(s@[k as int]),
        decreases n - k,
    {
        if k >= n {
            break;
        }
        let c = s.get_char(k);
        if c == '/' || c == ':' {
            break;
        }
        k = k + 1;
    }
    proof {
        let t = s@.skip(from as int);
        assert(forall|i: int| 0 <= i < t.len() ==> #[trigger] t[i] == s@[from + i]);
        lemma_count_while_determined(t, auth_pred(), k - from);
    }
    k
}

/// Scans the run of decimal digits from a position, returning where it ends
/// and the run's value clamped just above a cap: the clamp means the run's
/// true value exceeds the cap.
fn scan_number(s: &str, from: usize, cap: u32) -> (r: (usize, u32))
    requires
        from <= s@.len(),
        cap <= 0xFFFF,
    ensures
        r.0 - from == count_digits(s@.skip(from as int)),
        from <= r.0 <= s@.len(),
        (r.1 <= cap && r.1 == dec_value(s@.subrange(from as int, r.0 as int)) && dec_value(
            s@.subrange(from as int, r.0 as int),
        ) <= cap) || (r.1 == cap + 1 && dec_value(s@.subrange(from as int, r.0 as int)) > cap),
{
    let n = s.unicode_len();
    let mut k: usize = from;
    let mut v: u32 = 0;
    proof {
        assert(s@.subrange(from as int, from as int) =~= Seq::<char>::empty());
    }
    loop
        invariant
            from <= k <= n,
            n == s@.len(),
            cap <= 0xFFFF,
            v <= cap + 1,
            forall|i: int| from <= i < k ==> is_digit_char(#[trigger] s@[i]),
            (v <= cap && v == dec_value(s@.subrange(from as int, k as int))) || (v == cap + 1
                && dec_value(s@.subrange(from as int, k as int)) > cap),
        ensures
            from <= k <= n,
            forall|i: int| from <= i < k ==> is_digit_char(#[trigger] s@[i]),
            k < n ==> !is_digit_char(s@[k as int]),
            (v <= cap && v == dec_value(s@.subrange(from as int, k as int))) || (v == cap + 1
                && dec_value(s@.subrange(from as int, k as int)) > cap),
        decreases n - k,
    {
        if k >= n {
            break;
        }
        let c = s.get_char(k) as u32;
        if !(48 <= c && c <= 57) {
            break;
        }
        let d = c - 48;
        proof {
            let pre = s@.subrange(from as int, k + 1 as int);
            assert(pre.drop_last() =~= s@.subrange(from as int, k as int));
            assert(dec_value(pre) == dec_value(pre.drop_last()) * 10 + d);
            if v == cap + 1 {
                assert(dec_value(pre.drop_last()) * 10 + d > cap) by (nonlinear_arith)
                    requires
                        dec_value(pre.drop_last()) > cap,
                        d >= 0,
                        cap >= 0,
                ;
            }
        }
        let vw = v * 10 + d;
        if vw > cap {
            v = cap + 1;
        } else {
            v = vw;
        }
        k = k + 1;
    }
    proof {
        let t = s@.skip(from as int);
        assert(forall|i: int| 0 <= i < t.len() ==> #[trigger] t[i] == s@[from + i]);
        lemma_count_while_determined(t, digit_pred(), k - from);
    }
    (k, v)
}

impl Authority {
    /// Decomposes a nonempty authority token: the dotted quad if the token
    /// wholly is one, else the token as an opaque hostname. An empty token
    /// is rejected.
    pub fn parse(auth: &str) -> (r: Option<Authority>)
        ensures
            match r {
                Some(a) => auth@.len() > 0 && a@ == authority_of(auth@),
                None => auth@.len() == 0,
            },
    {
        let n = auth.unicode_len();
        if n == 0 {
            return None;
        }
        match Self::parse_quad(auth) {
            Some(q) => Some(Authority::Ip(q.0, q.1, q.2, q.3)),
            None => Some(Authority::Hostname(auth.to_owned())),
        }
    }

    /// Reads a token as a dotted quad, if it wholly is one.
    #[verifier::rlimit(50)]
    fn parse_quad(auth: &str) -> (r: Option<(u8, u8, u8, u8)>)
        ensures
            r == quad_of(auth@),
    {
        let n = auth.unicode_len();
        let (e1, v1) = scan_number(auth, 0, 255);
        proof {
            assert(auth@.skip(0) =~= auth@);
        }
        if e1 == 0 || e1 >= n || auth.get_char(e1) != '.' {
            return None;
        }
        let (e2, v2) = scan_number(auth, e1 + 1, 255);
        if e2 == e1 + 1 || e2 >= n || auth.get_char(e2) != '.' {
            return None;
        }
        let (e3, v3) = scan_number(auth, e2 + 1, 255);
        if e3 == e2 + 1 || e3 >= n || auth.get_char(e3) != '.' {
            return None;
        }
        let (e4, v4) = scan_number(auth, e3 + 1, 255);
        if e4 == e3 + 1 || e4 != n {
            return None;
        }
        if v1 > 255 || v2 > 255 || v3 > 255 || v4 > 255 {
            return None;
        }
        Some(((v1 as u8), (v2 as u8), (v3 as u8), (v4 as u8)))
    }
}

impl Url {
    /// Decomposes a URL string by the grammar, exactly as `url_of` states it.
    #[verifier::rlimit(50)]
    pub fn parse(url: &str) -> (r: Option<Url>)
        ensures
            match r {
                Some(u) => url_of(url@) == Some(u@),
                None => url_of(url@) is None,
            },
    {
        let n = url.unicode_len();
        let k = scan_alnum(url, 0);
        proof {
            assert(url@.skip(0) =~= url@);
        }
        if k == 0 || n < 3 || k > n - 3 {
            return None;
        }
        if url.get_char(k) != ':' || url.get_char(k + 1) != '/' || url.get_char(k + 2) != '/' {
            return None;
        }
        let a0 = k + 3;
        let ae = scan_auth(url, a0);
        if ae == a0 {
            return None;
        }
        let scheme = url.substring_char(0, k).to_owned();
        proof {
            assert(url@.subrange(0, k as int) =~= url@.take(k as int));
        }
        let auth_token = url.substring_char(a0, ae);
        let authority = match Authority::parse(auth_token) {
            Some(a) => a,
            None => {
                proof {
                    assert(false);
                }
                return None;
            },
        };
        if ae < n && url.get_char(ae) == ':' {
            let (pe, pv) = scan_number(url, ae + 1, 65535);
            if pe > ae + 1 && pv <= 65535 {
                let path = if pe < n {
                    Some(url.substring_char(pe, n).to_owned())
                } else {
                    None
                };
                proof {
                    assert(url@.subrange(pe as int, n as int) =~= url@.skip(pe as int));
                }
                return Some(
                    Url { scheme, authority, path, port: Some(pv as u16) },
                );
            }
        }
        let path = if ae < n {
            Some(url.substring_char(ae, n).to_owned())
        } else {
            None
        };
        proof {
            assert(url@.subrange(ae as int, n as int) =~= url@.skip(ae as int));
        }
        Some(Url { scheme, authority, path, port: None })
    }
}

/// The exact characters an authority re-serializes to.
pub open spec fn authority_chars(a: AuthorityView) -> Seq<char> {
    match a {
        AuthorityView::Hostname(h) => h,
        AuthorityView::Ip(q0, q1, q2, q3) => dec_digits(q0 as int) + seq!['.'] + dec_digits(
            q1 as int,
        ) + seq!['.'] + dec_digits(q2 as int) + seq!['.'] + dec_digits(q3 as int),
    }
}

/// The exact characters a URL re-serializes to: scheme, `://`, authority,
/// `:` and the port if present, and the path if present.
pub open spec fn url_chars(u: UrlView) -> Seq<char> {
    u.scheme + seq![':', '/', '/'] + authority_chars(u.authority) + (match u.port {
        Some(p) => seq![':'] + dec_digits(p as int),
        None => Seq::empty(),
    }) + (match u.path {
        Some(p) => p,
        None => Seq::empty(),
    })
}

impl Authority {
    /// Re-serializes the authority: the hostname itself, or the quad with
    /// dots.
    pub fn to_url_string(&self) -> (r: String)
        ensures
            r@ == authority_chars(self@),
    {
        match self {
            Authority::Hostname(h) => h.clone(),
            Authority::Ip(q0, q1, q2, q3) => {
                let mut out = String::new();
                push_decimal(*q0 as usize, &mut out);
                out.append(".");
                push_decimal(*q1 as usize, &mut out);
                out.append(".");
                push_decimal(*q2 as usize, &mut out);
                out.append(".");
                push_decimal(*q3 as usize, &mut out);
                proof {
                    reveal_strlit(".");
                    assert(out@ =~= authority_chars(self@));
                }
                out
            },
        }
    }
}

/// Whether a path may follow a port in the grammar: it must not begin with a
/// digit, or the digit run would have been read into the port.
pub open spec fn path_after_port(p: Seq<char>) -> bool {
    p.len() > 0 && !is_digit_char(p[0])
}

/// Whether a path may stand with no port in the grammar: it begins with the
/// separator that ended the authority, and when that is a colon, no port can
/// be read off its front.
pub open spec fn path_after_authority(p: Seq<char>) -> bool {
    p.len() > 0 && (p[0] == '/' || (p[0] == ':' && {
        let dl = count_digits(p.skip(1));
        dl == 0 || dec_value(p.subrange(1, 1 + dl)) > 65535
    }))
}

/// The shape every URL that `url_of` hands out has: a nonempty alphanumeric
/// scheme; a hostname that is nonempty, free of separators and not itself a
/// dotted quad; and a path that starts with whatever character ended the
/// component before it.
pub open spec fn url_wf(u: UrlView) -> bool {
    &&& u.scheme.len() > 0
    &&& forall|i: int| 0 <= i < u.scheme.len() ==> is_alnum_char(#[trigger] u.scheme[i])
    &&& match u.authority {
        AuthorityView::Hostname(h) => {
            &&& h.len() > 0
            &&& forall|i: int| 0 <= i < h.len() ==> is_auth_char(#[trigger] h[i])
            &&& quad_of(h) is None
        },
        AuthorityView::Ip(..) => true,
    }
    &&& match u.path {
        None => true,
        Some(p) => match u.port {
            Some(_) => path_after_port(p),
            None => path_after_authority(p),
        },
    }
}

/// Every URL the parser hands out is well-formed.
pub proof fn lemma_parse_wf(s: Seq<char>, u: UrlView)
    requires
        url_of(s) == Some(u),
    ensures
        url_wf(u),
{
    let k = count_while(s, alnum_pred());
    lemma_count_while_props(s, alnum_pred());
    assert(forall|i: int| 0 <= i < k ==> is_alnum_char(#[trigger] s[i]));
    assert(u.scheme == s.take(k));
    assert(forall|i: int| 0 <= i < u.scheme.len() ==> u.scheme[i] == s[i]);
    let a0 = k + 3;
    let al = count_while(s.skip(a0), auth_pred());
    lemma_count_while_props(s.skip(a0), auth_pred());
    let ae = a0 + al;
    let tok = s.subrange(a0, ae);
    assert(forall|i: int| 0 <= i < al ==> #[trigger] tok[i] == s.skip(a0)[i]);
    match u.authority {
        AuthorityView::Hostname(h) => {
            assert(h == tok);
            assert(forall|i: int| 0 <= i < h.len() ==> is_auth_char(#[trigger] h[i]));
        },
        AuthorityView::Ip(..) => {},
    }
    let dl = count_digits(s.skip(ae + 1));
    if ae < s.len() && s[ae] == ':' && dl > 0 && dec_value(s.subrange(ae + 1, ae + 1 + dl))
        <= 65535 {
        let pe = ae + 1 + dl;
        lemma_count_while_props(s.skip(pe), digit_pred());
        match u.path {
            None => {},
            Some(p) => {
                assert(p == s.skip(pe));
                assert(p.len() > 0);
                // The digit run before the path is maximal, so the path does
                // not begin with a digit.
                lemma_count_while_props(s.skip(ae + 1), digit_pred());
                assert(s.skip(ae + 1)[dl] == s[pe]);
                assert(!is_digit_char(s[pe]));
                assert(p[0] == s[pe]);
            },
        }
    } else {
        match u.path {
            None => {},
            Some(p) => {
                assert(p == s.skip(ae));
                assert(ae < s.len());
                assert(p[0] == s[ae]);
                assert(al < s.skip(a0).len());
                assert(s.skip(a0)[al] == s[ae]);
                assert(!is_auth_char(s[ae]));
                assert(s[ae] == '/' || s[ae] == ':');
                if s[ae] == ':' {
                    lemma_count_while_props(s.skip(ae + 1), digit_pred());
                    assert(p.skip(1) =~= s.skip(ae + 1));
                    assert(count_digits(p.skip(1)) == dl);
                    if dl > 0 {
                        assert(p.subrange(1, 1 + dl) =~= s.subrange(ae + 1, ae + 1 + dl));
                        assert(dec_value(p.subrange(1, 1 + dl)) > 65535);
                    }
                }
            },
        }
    }
}

/// A serialized quad parses back to its four octets, and all its characters
/// may stand in an authority token.
proof fn lemma_quad_chars_parse(q0: u8, q1: u8, q2: u8, q3: u8)
    ensures
        quad_of(authority_chars(AuthorityView::Ip(q0, q1, q2, q3))) == Some((q0, q1, q2, q3)),
        forall|i: int|
            0 <= i < authority_chars(AuthorityView::Ip(q0, q1, q2, q3)).len()
                ==> is_auth_char(#[trigger] authority_chars(AuthorityView::Ip(q0, q1, q2, q3))[i]),
{
    let d1 = dec_digits(q0 as int);
    let d2 = dec_digits(q1 as int);
    let d3 = dec_digits(q2 as int);
    let d4 = dec_digits(q3 as int);
    let a = authority_chars(AuthorityView::Ip(q0, q1, q2, q3));
    crate::text::lemma_dec_digits_digits(q0 as int);
    crate::text::lemma_dec_digits_digits(q1 as int);
    crate::text::lemma_dec_digits_digits(q2 as int);
    crate::text::lemma_dec_digits_digits(q3 as int);
    crate::text::lemma_dec_value_of_digits(q0 as int);
    crate::text::lemma_dec_value_of_digits(q1 as int);
    crate::text::lemma_dec_value_of_digits(q2 as int);
    crate::text::lemma_dec_value_of_digits(q3 as int);
    let l1 = d1.len() as int;
    let l2 = d2.len() as int;
    let l3 = d3.len() as int;
    let l4 = d4.len() as int;
    let p2 = l1 + 1;
    let p3 = p2 + l2 + 1;
    let p4 = p3 + l3 + 1;
    assert(a =~= d1 + seq!['.'] + d2 + seq!['.'] + d3 + seq!['.'] + d4);
    assert(a.len() == l1 + l2 + l3 + l4 + 3);
    assert(forall|i: int| 0 <= i < l1 ==> a[i] == #[trigger] d1[i]);
    assert(a[l1] == '.');
    assert(forall|i: int| 0 <= i < l2 ==> a[p2 + i] == #[trigger] d2[i]);
    assert(a[p2 + l2] == '.');
    assert(forall|i: int| 0 <= i < l3 ==> a[p3 + i] == #[trigger] d3[i]);
    assert(a[p3 + l3] == '.');
    assert(forall|i: int| 0 <= i < l4 ==> a[p4 + i] == #[trigger] d4[i]);
    assert(!is_digit_char('.'));
    lemma_count_while_determined(a, digit_pred(), l1);
    assert(forall|i: int| 0 <= i < a.skip(p2).len() ==> a.skip(p2)[i] == #[trigger] a[p2 + i]);
    lemma_count_while_determined(a.skip(p2), digit_pred(), l2);
    assert(forall|i: int| 0 <= i < a.skip(p3).len() ==> a.skip(p3)[i] == #[trigger] a[p3 + i]);
    lemma_count_while_determined(a.skip(p3), digit_pred(), l3);
    assert(forall|i: int| 0 <= i < a.skip(p4).len() ==> a.skip(p4)[i] == #[trigger] a[p4 + i]);
    lemma_count_while_determined(a.skip(p4), digit_pred(), l4);
    assert(a.subrange(0, l1) =~= d1);
    assert(a.subrange(p2, p2 + l2) =~= d2);
    assert(a.subrange(p3, p3 + l3) =~= d3);
    assert(a.subrange(p4, p4 + l4) =~= d4);
    assert(quad_of(a) == Some((q0, q1, q2, q3)));
    assert forall|i: int| 0 <= i < a.len() implies is_auth_char(#[trigger] a[i]) by {
        if a[i] == '.' {
        } else if i < l1 {
            assert(is_digit_char(d1[i]));
        } else if p2 <= i < p2 + l2 {
            assert(is_digit_char(d2[i - p2]));
        } else if p3 <= i < p3 + l3 {
            assert(is_digit_char(d3[i - p3]));
        } else if p4 <= i < p4 + l4 {
            assert(is_digit_char(d4[i - p4]));
        }
    }
}

/// Serializing a well-formed URL and parsing the result gives the same URL
/// back.
#[verifier::rlimit(100)]
pub proof fn lemma_serialize_parse(u: UrlView)
    requires
        url_wf(u),
    ensures
        url_of(url_chars(u)) == Some(u),
{
    let t = url_chars(u);
    let k = u.scheme.len() as int;
    let ac = authority_chars(u.authority);
    let a0 = k + 3;
    let ae = a0 + ac.len() as int;
    let pc = match u.port {
        Some(p) => seq![':'] + dec_digits(p as int),
        None => Seq::<char>::empty(),
    };
    let pa = match u.path {
        Some(p) => p,
        None => Seq::<char>::empty(),
    };
    match u.authority {
        AuthorityView::Ip(q0, q1, q2, q3) => {
            lemma_quad_chars_parse(q0, q1, q2, q3);
        },
        AuthorityView::Hostname(..) => {},
    }
    assert(ac.len() > 0);
    assert(forall|i: int| 0 <= i < ac.len() ==> is_auth_char(#[trigger] ac[i]));
    assert(t =~= u.scheme + seq![':', '/', '/'] + ac + pc + pa);
    assert(t.len() == k + 3 + ac.len() + pc.len() + pa.len());
    assert(forall|i: int| 0 <= i < k ==> t[i] == #[trigger] u.scheme[i]);
    assert(t[k] == ':' && t[k + 1] == '/' && t[k + 2] == '/');
    assert(forall|i: int| 0 <= i < ac.len() ==> t[a0 + i] == #[trigger] ac[i]);
    assert(forall|i: int| 0 <= i < pc.len() ==> t[ae + i] == #[trigger] pc[i]);
    assert(forall|i: int|
        0 <= i < pa.len() ==> t[ae + pc.len() + i] == #[trigger] pa[i]);
    // The scheme run ends exactly at the colon.
    assert(!is_alnum_char(':'));
    lemma_count_while_determined(t, alnum_pred(), k);
    // The authority run ends exactly where the port or path begins.
    assert(forall|i: int| 0 <= i < t.skip(a0).len() ==> t.skip(a0)[i] == #[trigger] t[a0 + i]);
    assert forall|i: int| 0 <= i < ac.len() implies is_auth_char(#[trigger] t.skip(a0)[i]) by {
        assert(t.skip(a0)[i] == ac[i]);
    }
    if ae < t.len() {
        match u.port {
            Some(_) => {
                assert(t[ae] == pc[0]);
                assert(pc[0] == ':');
            },
            None => {
                assert(pa == t.skip(ae));
                assert(t[ae] == pa[0]);
                assert(pa[0] == '/' || pa[0] == ':');
            },
        }
        assert(!is_auth_char(t[ae]));
    }
    lemma_count_while_determined(t.skip(a0), auth_pred(), ac.len() as int);
    assert(t.subrange(a0, ae) =~= ac);
    assert(authority_of(ac) == u.authority);
    match u.port {
        Some(p) => {
            crate::text::lemma_dec_digits_digits(p as int);
            crate::text::lemma_dec_value_of_digits(p as int);
            let dd = dec_digits(p as int);
            let dl = dd.len() as int;
            let pe = ae + 1 + dl;
            assert(t[ae] == ':');
            assert(forall|i: int|
                0 <= i < t.skip(ae + 1).len() ==> t.skip(ae + 1)[i] == #[trigger] t[ae + 1 + i]);
            assert(forall|i: int| 0 <= i < dl ==> t[ae + 1 + i] == #[trigger] dd[i]);
            if pe < t.len() {
                assert(t[pe] == pa[0]);
                assert(!is_digit_char(t[pe]));
            }
            lemma_count_while_determined(t.skip(ae + 1), digit_pred(), dl);
            assert(t.subrange(ae + 1, ae + 1 + dl) =~= dd);
            assert(dec_value(t.subrange(ae + 1, ae + 1 + dl)) == p as int);
            match u.path {
                Some(pth) => {
                    assert(t.skip(pe) =~= pth);
                },
                None => {
                    assert(pe == t.len());
                },
            }
        },
        None => {
            match u.path {
                Some(pth) => {
                    assert(t.skip(ae) =~= pth);
                    assert(t[ae] == pth[0]);
                    if pth[0] == ':' {
                        // No port can be read off the path's front.
                        assert(t.skip(ae + 1) =~= pth.skip(1));
                        let dl = count_digits(pth.skip(1));
                        lemma_count_while_props(pth.skip(1), digit_pred());
                        assert(count_digits(t.skip(ae + 1)) == dl);
                        if dl > 0 {
                            assert(t.subrange(ae + 1, ae + 1 + dl) =~= pth.subrange(1, 1 + dl));
                        }
                    }
                },
                None => {
                    assert(ae == t.len());
                },
            }
        },
    }
    assert(t.take(k) =~= u.scheme);
    assert(url_of(t) == Some(u));
}

/// Law: a URL obtained by parsing, re-serialized from its components, parses
/// back to the very same components.
pub proof fn lemma_url_round_trip(s: Seq<char>, u: UrlView)
    requires
        url_of(s) == Some(u),
    ensures
        url_of(url_chars(u)) == Some(u),
{
    lemma_parse_wf(s, u);
    lemma_serialize_parse(u);
}

impl Url {
    /// Re-serializes the URL from its components, as `url_chars` states it.
    pub fn to_url_string(&self) -> (r: String)
        ensures
            r@ == url_chars(self@),
    {
        let mut out = self.scheme.clone();
        out.append("://");
        let auth = self.authority.to_url_string();
        out.append(auth.as_str());
        if let Some(p) = &self.port {
            out.append(":");
            push_decimal(*p as usize, &mut out);
        }
        if let Some(p) = &self.path {
            out.append(p.as_str());
        }
        proof {
            reveal_strlit("://");
            reveal_strlit(":");
            assert(out@ =~= url_chars(self@));
        }
        out
    }
}

} // verus!
