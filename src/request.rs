use vstd::prelude::*;

use crate::context::bindings_of;
use crate::error::RequestError;
use crate::text::string_of;

verus! {

/// The request methods that a description may name.
#[derive(Debug, Clone, Copy, PartialEq, Eq, Structural)]
pub enum Method {
    Get,
    Post,
    Put,
    Delete,
    Head,
    Options,
    Connect,
    Patch,
    Trace,
}

/// The protocol versions that a request line may name.
#[derive(Debug, Clone, Copy, PartialEq, Eq, Structural)]
pub enum Version {
    Http09,
    Http10,
    Http11,
    Http2,
    Http3,
}

/// The method that the word `s` names, if any; names are case-sensitive.
pub open spec fn method_of(s: Seq<char>) -> Option<Method> {
    if s == seq!['G', 'E', 'T'] {
        Some(Method::Get)
    } else if s == seq!['P', 'O', 'S', 'T'] {
        Some(Method::Post)
    } else if s == seq!['P', 'U', 'T'] {
        Some(Method::Put)
    } else if s == seq!['D', 'E', 'L', 'E', 'T', 'E'] {
        Some(Method::Delete)
    } else if s == seq!['H', 'E', 'A', 'D'] {
        Some(Method::Head)
    } else if s == seq!['O', 'P', 'T', 'I', 'O', 'N', 'S'] {
        Some(Method::Options)
    } else if s == seq!['C', 'O', 'N', 'N', 'E', 'C', 'T'] {
        Some(Method::Connect)
    } else if s == seq!['P', 'A', 'T', 'C', 'H'] {
        Some(Method::Patch)
    } else if s == seq!['T', 'R', 'A', 'C', 'E'] {
        Some(Method::Trace)
    } else {
        None
    }
}

/// The version that the word `s` names; an absent (empty) word means HTTP/1.1.
pub open spec fn version_of(s: Seq<char>) -> Option<Version> {
    if s.len() == 0 {
        Some(Version::Http11)
    } else if s == seq!['H', 'T', 'T', 'P', '/', '0', '.', '9'] {
        Some(Version::Http09)
    } else if s == seq!['H', 'T', 'T', 'P', '/', '1', '.', '0'] {
        Some(Version::Http10)
    } else if s == seq!['H', 'T', 'T', 'P', '/', '1', '.', '1'] {
        Some(Version::Http11)
    } else if s == seq!['H', 'T', 'T', 'P', '/', '2', '.', '0'] {
        Some(Version::Http2)
    } else if s == seq!['H', 'T', 'T', 'P', '/', '3', '.', '0'] {
        Some(Version::Http3)
    } else {
        None
    }
}

/// A character allowed in a header name (an RFC 9110 `tchar`).
pub open spec fn is_tchar(c: char) -> bool {
    ('a' <= c && c <= 'z') || ('A' <= c && c <= 'Z') || ('0' <= c && c <= '9') || c == '!' || c
        == '#' || c == '$' || c == '%' || c == '&' || c == '\'' || c == '*' || c == '+' || c == '-'
        || c == '.' || c == '^' || c == '_' || c == '`' || c == '|' || c == '~'
}

pub open spec fn lower_char(c: char) -> char {
    if 'A' <= c && c <= 'Z' {
        ((c as u8) + 32) as u8 as char
    } else {
        c
    }
}

/// A header name as `http::HeaderName::from_str` accepts it: 1 to 65535 `tchar`s.
pub open spec fn valid_header_name(s: Seq<char>) -> bool {
    1 <= s.len() <= 65535 && forall|i: int| 0 <= i < s.len() ==> is_tchar(#[trigger] s[i])
}

/// The header name in its canonical, lower-case form.
pub open spec fn canonical_name(s: Seq<char>) -> Seq<char> {
    s.map_values(|c: char| lower_char(c))
}

/// A header value as `http::HeaderValue::from_str` accepts it: tab and no other control byte.
pub open spec fn valid_header_value(s: Seq<char>) -> bool {
    forall|i: int|
        0 <= i < s.len() ==> (#[trigger] s[i] == '\t' || (s[i] as u32 >= 32 && s[i] as u32 != 127))
}

/// A header name word: a valid name followed by a colon.
pub open spec fn name_word_ok(t: Seq<char>) -> bool {
    t.len() > 0 && t.last() == ':' && valid_header_name(t.drop_last())
}

/// No name occurs twice in the header list.
pub open spec fn distinct_names(h: Seq<(String, String)>) -> bool {
    forall|i: int, j: int| 0 <= i < j < h.len() ==> (#[trigger] h[i]).0@ != (#[trigger] h[j]).0@
}

pub fn same_chars(t: &Vec<char>, w: Vec<char>) -> (r: bool)
    ensures
        r == (t@ == w@),
{
    if t.len() != w.len() {
        return false;
    }
    let mut i: usize = 0;
    while i < t.len()
        invariant
            i <= t.len() == w.len(),
            forall|k: int| 0 <= k < i ==> t@[k] == w@[k],
        decreases t.len() - i,
    {
        if t[i] != w[i] {
            return false;
        }
        i = i + 1;
    }
    assert(t@ =~= w@);
    true
}

/// The method that the word `t` names; any other word is a parse error.
pub fn parse_method(t: &Vec<char>) -> (r: Result<Method, RequestError>)
    ensures
        method_of(t@) matches Some(m) ==> r == Ok::<Method, RequestError>(m),
        method_of(t@) is None ==> (r is Err && r.unwrap_err().is_parse()),
{
    if same_chars(t, vec!['G', 'E', 'T']) {
        Ok(Method::Get)
    } else if same_chars(t, vec!['P', 'O', 'S', 'T']) {
        Ok(Method::Post)
    } else if same_chars(t, vec!['P', 'U', 'T']) {
        Ok(Method::Put)
    } else if same_chars(t, vec!['D', 'E', 'L', 'E', 'T', 'E']) {
        Ok(Method::Delete)
    } else if same_chars(t, vec!['H', 'E', 'A', 'D']) {
        Ok(Method::Head)
    } else if same_chars(t, vec!['O', 'P', 'T', 'I', 'O', 'N', 'S']) {
        Ok(Method::Options)
    } else if same_chars(t, vec!['C', 'O', 'N', 'N', 'E', 'C', 'T']) {
        Ok(Method::Connect)
    } else if same_chars(t, vec!['P', 'A', 'T', 'C', 'H']) {
        Ok(Method::Patch)
    } else if same_chars(t, vec!['T', 'R', 'A', 'C', 'E']) {
        Ok(Method::Trace)
    } else {
        Err(RequestError::Parse(string_of(t.as_slice())))
    }
}

/// The version that the word `t` names, HTTP/1.1 where the word is absent.
pub fn parse_version(t: &Vec<char>) -> (r: Result<Version, RequestError>)
    ensures
        version_of(t@) matches Some(v) ==> r == Ok::<Version, RequestError>(v),
        version_of(t@) is None ==> (r is Err && r.unwrap_err().is_parse()),
        t@.len() == 0 ==> r == Ok::<Version, RequestError>(Version::Http11),
{
    if t.len() == 0 {
        Ok(Version::Http11)
    } else if same_chars(t, vec!['H', 'T', 'T', 'P', '/', '0', '.', '9']) {
        Ok(Version::Http09)
    } else if same_chars(t, vec!['H', 'T', 'T', 'P', '/', '1', '.', '0']) {
        Ok(Version::Http10)
    } else if same_chars(t, vec!['H', 'T', 'T', 'P', '/', '1', '.', '1']) {
        Ok(Version::Http11)
    } else if same_chars(t, vec!['H', 'T', 'T', 'P', '/', '2', '.', '0']) {
        Ok(Version::Http2)
    } else if same_chars(t, vec!['H', 'T', 'T', 'P', '/', '3', '.', '0']) {
        Ok(Version::Http3)
    } else {
        Err(RequestError::Parse(string_of(t.as_slice())))
    }
}

pub fn is_tchar_char(c: char) -> (r: bool)
    ensures
        r == is_tchar(c),
{
    ('a' <= c && c <= 'z') || ('A' <= c && c <= 'Z') || ('0' <= c && c <= '9') || c == '!' || c
        == '#' || c == '$' || c == '%' || c == '&' || c == '\'' || c == '*' || c == '+' || c == '-'
        || c == '.' || c == '^' || c == '_' || c == '`' || c == '|' || c == '~'
}

/// The canonical header name that the word `t` gives: `t` without its final colon, in lower
/// case. A word without the colon, or a name that is not valid, is a parse error.
pub fn parse_header_name(t: &Vec<char>) -> (r: Result<String, RequestError>)
    ensures
        r is Ok <==> name_word_ok(t@),
        r is Ok ==> r.unwrap()@ == canonical_name(t@.drop_last()),
        r is Err ==> r.unwrap_err().is_parse(),
{
    let n = t.len();
    if n == 0 || t[n - 1] != ':' || n - 1 > 65535 || n - 1 == 0 {
        return Err(RequestError::Parse(string_of(t.as_slice())));
    }
    let ghost name = t@.drop_last();
    let mut out: Vec<char> = Vec::new();
    let mut i: usize = 0;
    while i < n - 1
        invariant
            n == t.len(),
            name == t@.drop_last(),
            i <= n - 1,
            out@.len() == i,
            forall|k: int| 0 <= k < i ==> is_tchar(#[trigger] name[k]),
            forall|k: int| 0 <= k < i ==> #[trigger] out@[k] == lower_char(name[k]),
        decreases n - 1 - i,
    {
        let c = t[i];
        if !is_tchar_char(c) {
            assert(name[i as int] == c);
            return Err(RequestError::Parse(string_of(t.as_slice())));
        }
        let l = if 'A' <= c && c <= 'Z' {
            ((c as u8) + 32) as char
        } else {
            c
        };
        out.push(l);
        i = i + 1;
    }
    assert(out@ =~= canonical_name(name));
    Ok(string_of(out.as_slice()))
}

/// Whether `v` may stand as a header value.
pub fn check_header_value(v: &Vec<char>) -> (r: bool)
    ensures
        r == valid_header_value(v@),
{
    let mut i: usize = 0;
    while i < v.len()
        invariant
            i <= v.len(),
            forall|k: int| 0 <= k < i ==> (#[trigger] v@[k] == '\t' || (v@[k] as u32 >= 32 && v@[k] as u32 != 127)),
        decreases v.len() - i,
    {
        let c = v[i];
        if !(c == '\t' || (c as u32 >= 32 && c as u32 != 127)) {
            return false;
        }
        i = i + 1;
    }
    true
}

proof fn lemma_replace_bound(s: Seq<(String, String)>, i: int, x: (String, String))
    requires
        distinct_names(s),
        0 <= i < s.len(),
        s[i].0@ == x.0@,
    ensures
        bindings_of(s.update(i, x)) == bindings_of(s).insert(x.0@, x.1@),
    decreases s.len(),
{
    let u = s.update(i, x);
    if i == s.len() - 1 {
        assert(u.drop_last() =~= s.drop_last());
        assert(bindings_of(u) =~= bindings_of(s).insert(x.0@, x.1@));
    } else {
        assert(u.drop_last() =~= s.drop_last().update(i, x));
        assert(distinct_names(s.drop_last())) by {
            assert forall|a: int, b: int| 0 <= a < b < s.drop_last().len() implies
                (#[trigger] s.drop_last()[a]).0@ != (#[trigger] s.drop_last()[b]).0@ by {
                assert(s.drop_last()[a] == s[a] && s.drop_last()[b] == s[b]);
            }
        }
        lemma_replace_bound(s.drop_last(), i, x);
        assert(s[i].0@ != s[s.len() - 1].0@);
        assert(u.last() == s.last());
        assert(bindings_of(u) =~= bindings_of(s).insert(x.0@, x.1@));
    }
}

/// Sets header `name` to `value`, replacing the value that an equal name had before.
pub fn insert_header(headers: &mut Vec<(String, String)>, name: String, value: String)
    requires
        distinct_names(old(headers)@),
    ensures
        distinct_names(final(headers)@),
        bindings_of(final(headers)@) == bindings_of(old(headers)@).insert(name@, value@),
{
    let mut i: usize = 0;
    while i < headers.len()
        invariant
            i <= headers@.len(),
            headers@ == old(headers)@,
            distinct_names(headers@),
            forall|k: int| 0 <= k < i ==> (#[trigger] headers@[k]).0@ != name@,
        decreases headers.len() - i,
    {
        if headers[i].0 == name {
            let ghost prev = headers@;
            let x = (name, value);
            proof {
                lemma_replace_bound(prev, i as int, x);
            }
            headers.set(i, x);
            assert(headers@ =~= prev.update(i as int, x));
            assert(distinct_names(headers@)) by {
                assert forall|a: int, b: int| 0 <= a < b < headers@.len() implies
                    (#[trigger] headers@[a]).0@ != (#[trigger] headers@[b]).0@ by {
                    if a != i && b != i {
                        assert(headers@[a] == prev[a] && headers@[b] == prev[b]);
                    } else if a == i {
                        assert(headers@[b] == prev[b]);
                    } else {
                        assert(headers@[a] == prev[a]);
                    }
                }
            }
            return;
        }
        i = i + 1;
    }
    let ghost prev = headers@;
    headers.push((name, value));
    assert(headers@.drop_last() =~= prev);
}

/// Setting a header twice keeps only the later value, whatever the list held before.
pub proof fn lemma_header_overwrite(
    h: Seq<(String, String)>,
    name: Seq<char>,
    first: Seq<char>,
    second: Seq<char>,
)
    ensures
        bindings_of(h).insert(name, first).insert(name, second) == bindings_of(h).insert(
            name,
            second,
        ),
{
    assert(bindings_of(h).insert(name, first).insert(name, second) =~= bindings_of(h).insert(
        name,
        second,
    ));
}

} // verus!
